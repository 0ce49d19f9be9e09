use tag_scraper::extract::index_html;
use tag_scraper::index::{
    absorb_classes, build_index, contains_text, observed_classes, process_elements, Element,
    TagClassIndex,
};

fn element(tag: &str, class: Option<&str>, children: &[Option<&str>]) -> Element {
    Element {
        tag: tag.to_string(),
        class_attr: class.map(String::from),
        child_class_attrs: children.iter().map(|c| c.map(String::from)).collect(),
    }
}

fn classes_of(index: &TagClassIndex, tag: &str) -> Option<Vec<String>> {
    let p = index.find(&tag.to_string());
    if p < index.entries.len() {
        Some(index.entries[p].classes.clone())
    } else {
        None
    }
}

#[test]
fn observed_classes_are_own_then_children() {
    let e = element("div", Some(" a  b "), &[Some("c"), None, Some("a d")]);
    assert_eq!(observed_classes(&e), vec!["a", "b", "c", "a", "d"]);
    let bare = element("p", None, &[None]);
    assert!(observed_classes(&bare).is_empty());
}

#[test]
fn absorb_skips_what_is_there() {
    let mut classes = vec!["a".to_string()];
    let toks = vec!["b".to_string(), "a".to_string(), "b".to_string(), "c".to_string()];
    absorb_classes(&mut classes, &toks);
    assert_eq!(classes, vec!["a", "b", "c"]);
}

#[test]
fn contains_text_is_exact() {
    let list = vec!["book".to_string(), "price".to_string()];
    assert!(contains_text(&list, &"price".to_string()));
    assert!(!contains_text(&list, &"pric".to_string()));
    assert!(!contains_text(&list, &"Price".to_string()));
}

#[test]
fn one_entry_per_tag_and_no_class_twice() {
    let doc = vec![
        element("div", Some("a b"), &[Some("b")]),
        element("p", None, &[]),
        element("div", Some("b c"), &[Some("d a"), None]),
        element("p", None, &[None]),
        element("span", Some("a"), &[]),
    ];
    let index = build_index(&doc);
    assert_eq!(index.tags(), vec!["div", "p", "span"]);
    assert_eq!(classes_of(&index, "div").unwrap(), vec!["a", "b", "c", "d"]);
    assert_eq!(classes_of(&index, "span").unwrap(), vec!["a"]);
    for entry in &index.entries {
        let mut seen = entry.classes.clone();
        seen.sort();
        seen.dedup();
        assert_eq!(seen.len(), entry.classes.len());
    }
}

#[test]
fn classless_tag_has_an_empty_entry() {
    let doc = vec![element("p", None, &[None, None]), element("a", Some("x"), &[])];
    let index = build_index(&doc);
    assert_eq!(classes_of(&index, "p"), Some(Vec::new()));
    assert!(index.contains_tag(&"p".to_string()));
    assert!(!index.contains_tag(&"div".to_string()));
    assert_eq!(classes_of(&index, "div"), None);
}

#[test]
fn empty_document_has_an_empty_index() {
    let index = build_index(&Vec::new());
    assert!(index.entries.is_empty());
    assert!(TagClassIndex::new().entries.is_empty());
}

#[test]
fn process_elements_merges_into_the_tag_entry() {
    let mut index = TagClassIndex::new();
    process_elements(&element("li", Some("x"), &[]), &mut index);
    process_elements(&element("ul", None, &[Some("x"), Some("y")]), &mut index);
    process_elements(&element("li", Some("y x"), &[Some("z")]), &mut index);
    assert_eq!(index.tags(), vec!["li", "ul"]);
    assert_eq!(classes_of(&index, "li").unwrap(), vec!["x", "y", "z"]);
    assert_eq!(classes_of(&index, "ul").unwrap(), vec!["x", "y"]);
}

#[test]
fn grandchildren_are_not_observed() {
    let html = "<html><head></head><body><div class=\"outer\"><p class=\"mid\"><span class=\"deep\">x</span></p></div></body></html>";
    let index = index_html(html);
    assert_eq!(index.tags(), vec!["html", "head", "body", "div", "p", "span"]);
    assert_eq!(classes_of(&index, "html"), Some(Vec::new()));
    assert_eq!(classes_of(&index, "head"), Some(Vec::new()));
    assert_eq!(classes_of(&index, "body").unwrap(), vec!["outer"]);
    assert_eq!(classes_of(&index, "div").unwrap(), vec!["outer", "mid"]);
    assert_eq!(classes_of(&index, "p").unwrap(), vec!["mid", "deep"]);
    assert_eq!(classes_of(&index, "span").unwrap(), vec!["deep"]);
}

#[test]
fn index_of_a_parsed_document_merges_same_tags() {
    let html = "<ul><li class=\"a b\">1</li><li class=\"b c\">2</li><li>3</li></ul>";
    let index = index_html(html);
    assert_eq!(classes_of(&index, "li").unwrap(), vec!["a", "b", "c"]);
    assert_eq!(classes_of(&index, "ul").unwrap(), vec!["a", "b", "c"]);
}
