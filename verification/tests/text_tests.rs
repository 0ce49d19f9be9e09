use tag_scraper::text::{
    clean_content, is_whitespace, join, split, split_whitespace, trim, Split,
};

fn chars(s: &str) -> Vec<char> {
    s.chars().collect()
}

fn text(v: &Vec<char>) -> String {
    v.iter().collect()
}

#[test]
fn whitespace_is_the_unicode_property() {
    let mut n: u32 = 0;
    while n <= 0x10FFFF {
        if let Some(c) = char::from_u32(n) {
            assert_eq!(is_whitespace(c), c.is_whitespace(), "U+{:04X}", n);
        }
        n += 1;
    }
}

#[test]
fn trim_removes_both_ends_only() {
    assert_eq!(text(&trim(&chars("  a b \t\n"))), "a b");
    assert_eq!(text(&trim(&chars("\u{3000}x\u{a0}"))), "x");
    assert_eq!(text(&trim(&chars("   "))), "");
    assert_eq!(text(&trim(&chars(""))), "");
    assert_eq!(text(&trim(&chars("abc"))), "abc");
}

#[test]
fn trim_matches_std() {
    for s in ["", " ", "a", " a", "a ", "\r\n a \u{2003} b \u{85}", "\u{1680}\u{1680}"] {
        assert_eq!(text(&trim(&chars(s))), s.trim());
    }
}

#[test]
fn split_lines_keeps_empty_pieces() {
    let parts = split(&chars("a\n\nb\n"), Split::Lines);
    let parts: Vec<String> = parts.iter().map(text).collect();
    assert_eq!(parts, vec!["a", "", "b", ""]);
    let parts = split(&chars(""), Split::Lines);
    assert_eq!(parts.len(), 1);
    assert!(parts[0].is_empty());
}

#[test]
fn split_words_splits_at_each_whitespace() {
    let parts = split(&chars("a  b"), Split::Words);
    let parts: Vec<String> = parts.iter().map(text).collect();
    assert_eq!(parts, vec!["a", "", "b"]);
}

#[test]
fn join_puts_the_separator_between() {
    let rows = vec![chars("a"), chars(""), chars("bc")];
    assert_eq!(text(&join(&rows, '-')), "a--bc");
    assert_eq!(text(&join(&vec![chars("solo")], '-')), "solo");
    assert_eq!(text(&join(&Vec::new(), '-')), "");
}

#[test]
fn split_whitespace_gives_the_tokens() {
    assert_eq!(split_whitespace(" book  price\tstar-rating \n"), vec!["book", "price", "star-rating"]);
    assert!(split_whitespace("").is_empty());
    assert!(split_whitespace(" \t ").is_empty());
    assert_eq!(split_whitespace("one"), vec!["one"]);
}

#[test]
fn split_whitespace_matches_std() {
    for s in ["a b", "  a\u{a0}b\u{2009}c ", "x", "", "row col-sm-6\r\nproduct_pod"] {
        let expected: Vec<String> = s.split_whitespace().map(String::from).collect();
        assert_eq!(split_whitespace(s), expected);
    }
}

#[test]
fn clean_content_drops_blank_lines_and_trims() {
    assert_eq!(clean_content("  a  \n\n  b\n   \n"), "a\nb");
    assert_eq!(clean_content(" 10  "), "10");
    assert_eq!(clean_content("\n20\n"), "20");
    assert_eq!(clean_content("30"), "30");
    assert_eq!(clean_content(""), "");
    assert_eq!(clean_content(" \n\t\n"), "");
    assert_eq!(clean_content("x\r\ny\r\n"), "x\ny");
    assert_eq!(clean_content("a   b"), "a   b");
}

#[test]
fn clean_content_matches_the_line_by_line_formula() {
    for s in [
        "",
        "\n",
        "a",
        "a\n",
        "\r\n a \r\n\r\n b\r",
        "  A Light in the Attic \n\n   \u{a3}51.77  \n  In stock\n",
        "\u{3000}\n x \u{3000}",
    ] {
        let expected = s
            .lines()
            .filter(|line| !line.trim().is_empty())
            .map(|line| line.trim())
            .collect::<Vec<&str>>()
            .join("\n");
        assert_eq!(clean_content(s), expected);
    }
}

#[test]
fn cleaned_lines_survive_a_line_by_line_round_trip() {
    let lines = vec![clean_content(" 10  "), clean_content("\n20\n"), clean_content("30")];
    let mut written = String::new();
    for l in &lines {
        written.push_str(&format!("{}\n", l));
    }
    let back: Vec<String> = written.lines().map(String::from).collect();
    assert_eq!(back, lines);
}

#[test]
fn greet_names_the_guest() {
    assert_eq!(tag_scraper::greeting::greet("Ada"), "Hello, Ada! You've been greeted from Rust!");
    assert_eq!(tag_scraper::greeting::greet(""), "Hello, ! You've been greeted from Rust!");
}
