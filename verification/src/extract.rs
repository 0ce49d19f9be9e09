//! Reading a parsed HTML document: the elements that the index is built
//! from, and the cleaned text of the elements that a selector matches.

use vstd::prelude::*;
use crate::index::{
    build_index, class_observed, classes_of, element_views, has_tag, index_of, tag_occurs,
    well_formed, Element, ElementView, TagClassIndex,
};
use crate::text::{chars_of, clean_chars, cleaned, join, joined, string_of, texts};

verus! {

/// A parsed HTML document.
#[verifier::external_type_specification]
#[verifier::external_body]
pub struct ExHtml(scraper::Html);

/// A parsed group of CSS selectors.
#[verifier::external_type_specification]
#[verifier::external_body]
pub struct ExSelector(scraper::Selector);

/// The document that parsing an HTML text gives.
pub uninterp spec fn parsed_document(html: Seq<char>) -> scraper::Html;

/// The elements of a document that have a parent, in the order in which
/// the document yields them: that in which the parser created them.
pub uninterp spec fn document_elements(doc: scraper::Html) -> Seq<ElementView>;

/// The selector that a text writes, if it is valid selector syntax.
pub uninterp spec fn selector_of(text: Seq<char>) -> Option<scraper::Selector>;

/// For each element of the document that the selector matches, in the
/// order in which the document yields them, the text of the text nodes
/// below the element, in tree order.
pub uninterp spec fn selected_fragments(doc: scraper::Html, selector: scraper::Selector) -> Seq<
    Seq<Seq<char>>,
>;

/// `scraper::Html::parse_document`: parses a text as a whole HTML
/// document. Parsing never fails; the same text gives the same document.
#[verifier::external_body]
fn parse_document(html: &str) -> (doc: scraper::Html)
    ensures
        doc == parsed_document(html@),
{
    scraper::Html::parse_document(html)
}

/// `scraper::Html::select` with the universal selector, which yields
/// every element that has a parent, in the order in which the parser
/// created the nodes; of each element the tag name
/// (`Element::name`), its `class` attribute (`Element::attr`) and the
/// `class` attribute of each child element (`ElementRef::child_elements`).
#[verifier::external_body]
fn read_elements(doc: &scraper::Html) -> (out: Vec<Element>)
    ensures
        element_views(out@) == document_elements(*doc),
{
    let all = scraper::Selector::parse("*").unwrap();
    doc.select(&all).map(|e| Element {
        tag: e.value().name().to_string(),
        class_attr: e.value().attr("class").map(String::from),
        child_class_attrs: e.child_elements().map(|c| c.value().attr("class").map(String::from)).collect(),
    }).collect()
}

/// `scraper::Selector::parse`: the selector that the text writes, or
/// nothing where the text is not valid selector syntax.
#[verifier::external_body]
fn parse_selector(text: &str) -> (out: Option<scraper::Selector>)
    ensures
        out == selector_of(text@),
{
    scraper::Selector::parse(text).ok()
}

/// `scraper::Html::select` and, for each element it yields,
/// `ElementRef::text`: the matched elements in the order in which the
/// parser created them, each as the text of its descendant text nodes,
/// in tree order.
#[verifier::external_body]
fn select_fragments(doc: &scraper::Html, selector: &scraper::Selector) -> (out: Vec<Vec<String>>)
    ensures
        fragment_views(out@) == selected_fragments(*doc, *selector),
{
    doc.select(selector).map(|e| e.text().map(String::from).collect()).collect()
}

/// The character sequences held by lists of fragments.
pub open spec fn fragment_views(all: Seq<Vec<String>>) -> Seq<Seq<Seq<char>>> {
    Seq::new(all.len(), |i: int| texts(all[i]@))
}

/// The cleaned text of one element: its fragments joined by single
/// spaces, then without blank lines and without whitespace around the
/// lines that stay.
pub open spec fn element_text(fragments: Seq<Seq<char>>) -> Seq<char> {
    cleaned(joined(fragments, ' '))
}

/// The cleaned text of each element, in the order given.
pub open spec fn extracted(all: Seq<Seq<Seq<char>>>) -> Seq<Seq<char>> {
    Seq::new(all.len(), |i: int| element_text(all[i]))
}

/// Why nothing could be extracted.
#[derive(Clone, Copy, Debug, PartialEq, Eq, Structural)]
pub enum ExtractError {
    /// The selector is not valid CSS selector syntax.
    SelectorSyntax,
}

/// The cleaned text of one element, from its text fragments.
pub fn clean_fragments(fragments: &Vec<String>) -> (out: String)
    ensures
        out@ == element_text(texts(fragments@)),
{
    let mut rows: Vec<Vec<char>> = Vec::new();
    let mut i: usize = 0;
    proof {
        assert(crate::text::rows(rows@) =~= texts(fragments@).subrange(0, 0));
    }
    while i < fragments.len()
        invariant
            i <= fragments.len(),
            crate::text::rows(rows@) == texts(fragments@).subrange(0, i as int),
        decreases fragments.len() - i,
    {
        let ghost prev = crate::text::rows(rows@);
        let row = chars_of(fragments[i].as_str());
        rows.push(row);
        proof {
            assert(crate::text::rows(rows@) =~= prev.push(row@));
            assert(prev.push(row@) =~= texts(fragments@).subrange(0, i + 1));
        }
        i += 1;
    }
    proof {
        assert(texts(fragments@).subrange(0, i as int) =~= texts(fragments@));
    }
    let whole = join(&rows, ' ');
    let text = clean_chars(&whole);
    string_of(&text)
}

/// The cleaned text of each element, from the fragments of each.
pub fn clean_all(all: &Vec<Vec<String>>) -> (out: Vec<String>)
    ensures
        texts(out@) == extracted(fragment_views(all@)),
{
    let mut out: Vec<String> = Vec::new();
    let mut i: usize = 0;
    let ghost goal = extracted(fragment_views(all@));
    proof {
        assert(texts(out@) =~= goal.subrange(0, 0));
    }
    while i < all.len()
        invariant
            i <= all.len(),
            goal == extracted(fragment_views(all@)),
            texts(out@) == goal.subrange(0, i as int),
        decreases all.len() - i,
    {
        let ghost prev = texts(out@);
        let s = clean_fragments(&all[i]);
        out.push(s);
        proof {
            assert(texts(out@) =~= prev.push(s@));
            assert(prev.push(s@) =~= goal.subrange(0, i + 1));
        }
        i += 1;
    }
    proof {
        assert(goal.subrange(0, i as int) =~= goal);
    }
    out
}

/// The index of a parsed document.
pub fn index_document(doc: &scraper::Html) -> (idx: TagClassIndex)
    ensures
        idx@ == index_of(document_elements(*doc)),
        well_formed(idx@),
        forall|t: Seq<char>| #[trigger] has_tag(idx@, t) <==> tag_occurs(document_elements(*doc), t),
        forall|t: Seq<char>, c: Seq<char>| #[trigger]
            classes_of(idx@, t).contains(c) <==> class_observed(document_elements(*doc), t, c),
{
    let elements = read_elements(doc);
    build_index(&elements)
}

/// The index of the document that an HTML text parses to.
pub fn index_html(html: &str) -> (idx: TagClassIndex)
    ensures
        idx@ == index_of(document_elements(parsed_document(html@))),
        well_formed(idx@),
        forall|t: Seq<char>| #[trigger]
            has_tag(idx@, t) <==> tag_occurs(document_elements(parsed_document(html@)), t),
        forall|t: Seq<char>, c: Seq<char>| #[trigger]
            classes_of(idx@, t).contains(c) <==> class_observed(
                document_elements(parsed_document(html@)),
                t,
                c,
            ),
{
    let doc = parse_document(html);
    index_document(&doc)
}

/// The cleaned text of every element that the selector matches, one
/// string per element, in the order in which the document yields them.
pub fn scrape(doc: &scraper::Html, selector: &scraper::Selector) -> (out: Vec<String>)
    ensures
        texts(out@) == extracted(selected_fragments(*doc, *selector)),
{
    let all = select_fragments(doc, selector);
    clean_all(&all)
}

/// The cleaned text of every element that the selector text matches.
/// Fails exactly where the text is not valid selector syntax.
pub fn extract(doc: &scraper::Html, selector: &str) -> (out: Result<Vec<String>, ExtractError>)
    ensures
        match selector_of(selector@) {
            Some(sel) => out is Ok && texts(out->Ok_0@) == extracted(
                selected_fragments(*doc, sel),
            ),
            None => out == Err::<Vec<String>, ExtractError>(ExtractError::SelectorSyntax),
        },
{
    match parse_selector(selector) {
        Some(sel) => Ok(scrape(doc, &sel)),
        None => Err(ExtractError::SelectorSyntax),
    }
}

/// The cleaned text of every element of the document that `html` parses
/// to and that the selector text matches.
pub fn extract_html(html: &str, selector: &str) -> (out: Result<Vec<String>, ExtractError>)
    ensures
        match selector_of(selector@) {
            Some(sel) => out is Ok && texts(out->Ok_0@) == extracted(
                selected_fragments(parsed_document(html@), sel),
            ),
            None => out == Err::<Vec<String>, ExtractError>(ExtractError::SelectorSyntax),
        },
{
    let doc = parse_document(html);
    extract(&doc, selector)
}

} // verus!
