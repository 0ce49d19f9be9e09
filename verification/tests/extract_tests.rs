use tag_scraper::extract::{
    clean_all, clean_fragments, extract, extract_html, index_document, scrape, ExtractError,
};

fn list(items: &[&str]) -> Vec<String> {
    items.iter().map(|s| s.to_string()).collect()
}

const PRICES: &str = "<html><body><p class=\"price\"> 10  </p><div><span class=\"price\">\n20\n</span></div><p class=\"other\">x</p><b class=\"price\">30</b></body></html>";

#[test]
fn three_prices_come_out_clean() {
    assert_eq!(extract_html(PRICES, ".price"), Ok(list(&["10", "20", "30"])));
}

#[test]
fn fragments_of_three_prices_come_out_clean() {
    let all = vec![list(&[" 10  "]), list(&["\n20\n"]), list(&["30"])];
    assert_eq!(clean_all(&all), list(&["10", "20", "30"]));
}

#[test]
fn fragments_are_joined_by_one_space() {
    assert_eq!(clean_fragments(&list(&["a", "b"])), "a b");
    assert_eq!(clean_fragments(&list(&["a", "", "b"])), "a  b");
    assert_eq!(clean_fragments(&list(&[" a\n", "\n b "])), "a\nb");
    assert_eq!(clean_fragments(&Vec::new()), "");
    assert_eq!(clean_fragments(&list(&["\n", " "])), "");
}

#[test]
fn descendant_text_is_part_of_the_element() {
    let html = "<ul><li class=\"item\">one <b>two</b>\n\n three</li><li class=\"item\"></li></ul>";
    assert_eq!(extract_html(html, "li.item"), Ok(list(&["one  two\nthree", ""])));
}

#[test]
fn malformed_selector_is_an_error() {
    assert_eq!(extract_html(PRICES, "<<<"), Err(ExtractError::SelectorSyntax));
    assert_eq!(extract_html(PRICES, ""), Err(ExtractError::SelectorSyntax));
    let doc = scraper::Html::parse_document(PRICES);
    assert_eq!(extract(&doc, "p["), Err(ExtractError::SelectorSyntax));
}

#[test]
fn selector_forms_are_understood() {
    let html = "<div id=\"main\" class=\"box\">m</div><div>plain</div><p class=\"box\">p</p>";
    let doc = scraper::Html::parse_document(html);
    assert_eq!(extract(&doc, "#main"), Ok(list(&["m"])));
    assert_eq!(extract(&doc, "div[class]"), Ok(list(&["m"])));
    assert_eq!(extract(&doc, ".box"), Ok(list(&["m", "p"])));
    assert_eq!(extract(&doc, "div"), Ok(list(&["m", "plain"])));
    assert_eq!(extract(&doc, "h1"), Ok(Vec::new()));
}

#[test]
fn scrape_takes_a_parsed_selector() {
    let doc = scraper::Html::parse_document(PRICES);
    let sel = scraper::Selector::parse("p").unwrap();
    assert_eq!(scrape(&doc, &sel), list(&["10", "x"]));
}

#[test]
fn index_document_reads_every_element() {
    let doc = scraper::Html::parse_document(PRICES);
    let index = index_document(&doc);
    assert_eq!(index.tags(), list(&["html", "head", "body", "p", "div", "span", "b"]));
    let body = index.find(&"body".to_string());
    assert_eq!(index.entries[body].classes, list(&["price", "other"]));
    let div = index.find(&"div".to_string());
    assert_eq!(index.entries[div].classes, list(&["price"]));
    let p = index.find(&"p".to_string());
    assert_eq!(index.entries[p].classes, list(&["price", "other"]));
}
