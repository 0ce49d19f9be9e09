use tag_scraper::extract::extract_html;
use tag_scraper::output::{file_text, read_lines};

fn list(items: &[&str]) -> Vec<String> {
    items.iter().map(|s| s.to_string()).collect()
}

#[test]
fn file_text_closes_every_line() {
    assert_eq!(file_text(&list(&["10", "20", "30"])), "10\n20\n30\n");
    assert_eq!(file_text(&list(&["", "a"])), "\na\n");
    assert_eq!(file_text(&Vec::new()), "");
}

#[test]
fn read_lines_ends_at_line_feeds() {
    assert_eq!(read_lines("10\n20\n30\n"), list(&["10", "20", "30"]));
    assert_eq!(read_lines("a\n\nb"), list(&["a", "", "b"]));
    assert_eq!(read_lines("a\n\n"), list(&["a", ""]));
    assert!(read_lines("").is_empty());
}

#[test]
fn read_lines_matches_std_without_carriage_returns() {
    for s in ["", "a", "a\n", "\n", "\n\n", "a\nb\n\n c \n"] {
        let expected: Vec<String> = s.lines().map(String::from).collect();
        assert_eq!(read_lines(s), expected);
    }
}

#[test]
fn extracted_lines_round_trip() {
    let html = "<p class=\"price\"> 10  </p><p class=\"price\">\n20\n</p><p class=\"price\"></p><p class=\"price\">30</p>";
    let out = extract_html(html, ".price").unwrap();
    assert_eq!(out, list(&["10", "20", "", "30"]));
    assert_eq!(read_lines(&file_text(&out)), out);
}

#[test]
fn a_line_feed_inside_a_string_breaks_the_round_trip() {
    let out = list(&["a\nb"]);
    assert_eq!(read_lines(&file_text(&out)), list(&["a", "b"]));
}
