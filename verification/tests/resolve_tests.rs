use tag_scraper::index::{build_index, Element, TagClassIndex};
use tag_scraper::resolve::{
    after_category, after_choice, Action, all_numeric, css_selector, id_or_class, parse_index, pick_entry, read_category, resolve,
    resolve_with, spells_word, Category, Resolved,
};

fn list(items: &[&str]) -> Vec<String> {
    items.iter().map(|s| s.to_string()).collect()
}

fn chars(s: &str) -> Vec<char> {
    s.chars().collect()
}

fn index_of_tags(tags: &[&str]) -> TagClassIndex {
    let doc: Vec<Element> = tags
        .iter()
        .map(|t| Element { tag: t.to_string(), class_attr: None, child_class_attrs: Vec::new() })
        .collect();
    build_index(&doc)
}

fn selector(s: &str) -> Resolved {
    Resolved::Selector(s.to_string())
}

#[test]
fn index_two_needs_three_classes() {
    let index = TagClassIndex::new();
    let three = list(&["book", "price", "star"]);
    let two = list(&["book", "price"]);
    assert_eq!(resolve("classes", &index, &three, &Vec::new(), "2"), selector("star"));
    assert_eq!(resolve("classes", &index, &two, &Vec::new(), "2"), Resolved::Invalid);
    assert_eq!(resolve("classes", &index, &Vec::new(), &Vec::new(), "0"), Resolved::Invalid);
    assert_eq!(resolve("classes", &index, &two, &Vec::new(), "0"), selector("book"));
}

#[test]
fn class_by_exact_name() {
    let index = TagClassIndex::new();
    let classes = list(&["book", "price"]);
    assert_eq!(resolve("classes", &index, &classes, &Vec::new(), "book"), selector("book"));
    assert_eq!(resolve("classes", &index, &classes, &Vec::new(), "nonexistent"), Resolved::Invalid);
    assert_eq!(resolve("classes", &index, &classes, &Vec::new(), "boo"), Resolved::Invalid);
    assert_eq!(resolve("classes", &index, &classes, &Vec::new(), "Book"), Resolved::Invalid);
}

#[test]
fn quit_always_quits() {
    let index = index_of_tags(&["quit"]);
    let classes = list(&["quit", "0"]);
    assert_eq!(resolve("quit", &index, &classes, &classes, "0"), Resolved::Quit);
    assert_eq!(resolve("quit", &index, &Vec::new(), &Vec::new(), ""), Resolved::Quit);
    assert_eq!(resolve("  QuIt \n", &index, &classes, &classes, "quit"), Resolved::Quit);
}

#[test]
fn category_is_case_insensitive_and_trimmed() {
    assert_eq!(read_category("classes"), Category::Classes);
    assert_eq!(read_category(" Classes\n"), Category::Classes);
    assert_eq!(read_category("ID"), Category::Id);
    assert_eq!(read_category("tAg"), Category::Tag);
    assert_eq!(read_category("QUIT"), Category::Quit);
    assert_eq!(read_category("class"), Category::Unknown);
    assert_eq!(read_category(""), Category::Unknown);
    assert_eq!(read_category("i d"), Category::Unknown);
    assert_eq!(read_category("\u{130}d"), Category::Unknown);
}

#[test]
fn category_matches_lowercasing() {
    for s in ["classes", "CLASSES", "Id", "iD", "TAG", "quit", "Quit ", "ids", "", "q", "\u{212a}", "\u{130}D"] {
        let lowered = s.trim().to_lowercase();
        let expected = match lowered.as_str() {
            "classes" => Category::Classes,
            "id" => Category::Id,
            "tag" => Category::Tag,
            "quit" => Category::Quit,
            _ => Category::Unknown,
        };
        assert_eq!(read_category(s), expected);
    }
}

#[test]
fn unknown_category_is_invalid() {
    let index = index_of_tags(&["div"]);
    let classes = list(&["a"]);
    assert_eq!(resolve("class", &index, &classes, &classes, "a"), Resolved::Invalid);
    assert_eq!(resolve("", &index, &classes, &classes, "0"), Resolved::Invalid);
}

#[test]
fn ids_resolve_like_classes() {
    let index = TagClassIndex::new();
    let ids = list(&["main", "footer"]);
    assert_eq!(resolve("id", &index, &Vec::new(), &ids, "1"), selector("footer"));
    assert_eq!(resolve("id", &index, &Vec::new(), &ids, "main"), selector("main"));
    assert_eq!(resolve("id", &index, &Vec::new(), &ids, "2"), Resolved::Invalid);
    assert_eq!(resolve("id", &index, &ids, &Vec::new(), "main"), Resolved::Invalid);
}

#[test]
fn tags_resolve_against_the_index() {
    let index = index_of_tags(&["html", "body", "div", "body"]);
    assert_eq!(resolve("tag", &index, &Vec::new(), &Vec::new(), "div"), selector("div"));
    assert_eq!(resolve("tag", &index, &Vec::new(), &Vec::new(), "1"), selector("body"));
    assert_eq!(resolve("tag", &index, &Vec::new(), &Vec::new(), "3"), Resolved::Invalid);
    assert_eq!(resolve("tag", &index, &Vec::new(), &Vec::new(), "span"), Resolved::Invalid);
}

#[test]
fn choice_is_trimmed() {
    let index = TagClassIndex::new();
    let classes = list(&["book", "price"]);
    assert_eq!(resolve("classes", &index, &classes, &Vec::new(), " 1 \n"), selector("price"));
    assert_eq!(resolve("classes", &index, &classes, &Vec::new(), "  price\n"), selector("price"));
}

#[test]
fn numeric_but_unparsable_is_invalid() {
    let index = TagClassIndex::new();
    let classes = list(&["", "\u{b2}", "99999999999999999999999999"]);
    assert_eq!(resolve("classes", &index, &classes, &Vec::new(), ""), Resolved::Invalid);
    assert_eq!(resolve("classes", &index, &classes, &Vec::new(), "\u{b2}"), Resolved::Invalid);
    assert_eq!(
        resolve("classes", &index, &classes, &Vec::new(), "99999999999999999999999999"),
        Resolved::Invalid
    );
    assert_eq!(resolve("classes", &index, &classes, &Vec::new(), "002"), selector("99999999999999999999999999"));
    assert_eq!(resolve("classes", &index, &classes, &Vec::new(), "-1"), Resolved::Invalid);
    assert_eq!(resolve("classes", &index, &classes, &Vec::new(), "+1"), Resolved::Invalid);
}

#[test]
fn resolve_with_follows_the_flag() {
    let index = TagClassIndex::new();
    let classes = list(&["7", "x"]);
    assert_eq!(resolve_with("classes", &index, &classes, &Vec::new(), "7", false), selector("7"));
    assert_eq!(resolve_with("classes", &index, &classes, &Vec::new(), "7", true), Resolved::Invalid);
    assert_eq!(resolve_with("classes", &index, &classes, &Vec::new(), "x", true), Resolved::Invalid);
    assert_eq!(resolve_with("classes", &index, &classes, &Vec::new(), "1", true), selector("x"));
}

#[test]
fn all_numeric_follows_the_characters() {
    assert!(all_numeric(&chars("0123456789")));
    assert!(all_numeric(&chars("")));
    assert!(all_numeric(&chars("\u{b2}\u{661}")));
    assert!(!all_numeric(&chars("12a")));
    assert!(!all_numeric(&chars("1 2")));
    assert!(!all_numeric(&chars("-1")));
    for s in ["42", "4x", "", "\u{2167}", "x"] {
        assert_eq!(all_numeric(&chars(s)), s.chars().all(char::is_numeric));
    }
}

#[test]
fn parse_index_reads_decimals_below_the_limit() {
    assert_eq!(parse_index(&chars("12"), 13), Some(12));
    assert_eq!(parse_index(&chars("12"), 12), None);
    assert_eq!(parse_index(&chars("0"), 1), Some(0));
    assert_eq!(parse_index(&chars("0"), 0), None);
    assert_eq!(parse_index(&chars("0012"), 100), Some(12));
    assert_eq!(parse_index(&chars(""), 100), None);
    assert_eq!(parse_index(&chars("1a"), 100), None);
    assert_eq!(parse_index(&chars("\u{661}"), 100), None);
    assert_eq!(parse_index(&chars("18446744073709551616"), usize::MAX), None);
    assert_eq!(parse_index(&chars("340282366920938463463374607431768211456"), usize::MAX), None);
    assert_eq!(parse_index(&chars("65535"), usize::MAX), Some(65535));
}

#[test]
fn pick_entry_by_index_or_name() {
    let items = list(&["a", "b", "c"]);
    assert_eq!(pick_entry(&items, &"1".to_string(), true), Some("b".to_string()));
    assert_eq!(pick_entry(&items, &"3".to_string(), true), None);
    assert_eq!(pick_entry(&items, &"c".to_string(), false), Some("c".to_string()));
    assert_eq!(pick_entry(&items, &"d".to_string(), false), None);
}

#[test]
fn spells_word_ignores_ascii_case() {
    assert!(spells_word(&chars("TaG"), &chars("tag")));
    assert!(!spells_word(&chars("tags"), &chars("tag")));
    assert!(!spells_word(&chars("ta"), &chars("tag")));
    assert!(!spells_word(&chars("t@g"), &chars("tag")));
}

#[test]
fn css_selector_by_category() {
    assert_eq!(css_selector(Category::Classes, "price"), Some(".price".to_string()));
    assert_eq!(css_selector(Category::Id, "main"), Some("#main".to_string()));
    assert_eq!(css_selector(Category::Tag, "div"), Some("div[class]".to_string()));
    assert_eq!(css_selector(Category::Quit, "x"), None);
    assert_eq!(css_selector(Category::Unknown, "x"), None);
}

#[test]
fn free_choice_is_a_tag_or_a_class() {
    let index = index_of_tags(&["div", "p"]);
    assert_eq!(id_or_class(&index, " div \n"), "div[class]");
    assert_eq!(id_or_class(&index, "price\n"), ".price");
    assert_eq!(id_or_class(&index, "DIV"), ".DIV");
}

#[test]
fn category_answer_decides_the_next_step() {
    assert_eq!(after_category("classes\n"), Action::ShowMenu(Category::Classes));
    assert_eq!(after_category("ID"), Action::ShowMenu(Category::Id));
    assert_eq!(after_category(" tag "), Action::ShowMenu(Category::Tag));
    assert_eq!(after_category("quit"), Action::Stop);
    assert_eq!(after_category("anything"), Action::AskAgain);
}

#[test]
fn only_a_resolved_choice_is_extracted() {
    let index = index_of_tags(&["div", "p"]);
    let classes = list(&["book", "price"]);
    let ids = list(&["main"]);
    assert_eq!(after_choice("classes", &index, &classes, &ids, "1\n"), Action::Extract(".price".to_string()));
    assert_eq!(after_choice("id", &index, &classes, &ids, "main"), Action::Extract("#main".to_string()));
    assert_eq!(after_choice("tag", &index, &classes, &ids, "0"), Action::Extract("div[class]".to_string()));
    assert_eq!(after_choice("tag", &index, &classes, &ids, "span"), Action::AskAgain);
    assert_eq!(after_choice("classes", &index, &classes, &ids, "2"), Action::AskAgain);
    assert_eq!(after_choice("quit", &index, &classes, &ids, "0"), Action::Stop);
    assert_eq!(after_choice("other", &index, &classes, &ids, "0"), Action::AskAgain);
}
