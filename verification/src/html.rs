//! What the HTML parsers read out of a page, as plain values.
//!
//! Each function here parses the page with the `scraper` or the `select` crate
//! and hands back text; what the parse yields is named, not described: it is a
//! function of the page and the selector alone, and nothing more is claimed of
//! it. Everything the spiders then decide is verified against those names.
use select::predicate::Predicate;
use vstd::prelude::*;

use crate::text::texts;

verus! {

/// The text pieces of each element of `html` that `css` selects, in the order
/// the parser yields them; no elements when `css` does not parse.
pub uninterp spec fn element_texts(html: Seq<char>, css: Seq<char>) -> Seq<Seq<Seq<char>>>;

/// For each element of `html` that `outer` selects, the text pieces of each of
/// its descendants that `inner` selects; nothing when a selector does not parse.
pub uninterp spec fn nested_element_texts(html: Seq<char>, outer: Seq<char>, inner: Seq<char>) -> Seq<
    Seq<Seq<Seq<char>>>,
>;

/// For each element of `html` that `css` selects, the value of each of the
/// attributes `names`, in the order the parser yields them.
pub uninterp spec fn element_attributes(html: Seq<char>, css: Seq<char>, names: Seq<Seq<char>>) -> Seq<
    Seq<Option<Seq<char>>>,
>;

/// Every text node of the parsed document `html`, concatenated.
pub uninterp spec fn document_text(html: Seq<char>) -> Seq<char>;

/// For each node of `html` with class `inner` inside a node with class
/// `outer`, in the order the parser yields them, its text and its `href`.
pub uninterp spec fn class_links(html: Seq<char>, outer: Seq<char>, inner: Seq<char>) -> Seq<
    (Seq<char>, Option<Seq<char>>),
>;

/// For each node of `html` named `name` inside a node with class `outer`, in
/// the order the parser yields them, its text and its `href`.
pub uninterp spec fn named_links(html: Seq<char>, outer: Seq<char>, name: Seq<char>) -> Seq<
    (Seq<char>, Option<Seq<char>>),
>;

/// The views of a list of elements' text pieces.
pub open spec fn piece_lists(v: Seq<Vec<String>>) -> Seq<Seq<Seq<char>>> {
    v.map_values(|e: Vec<String>| texts(e@))
}

/// The views of a list of lists of elements' text pieces.
pub open spec fn nested_piece_lists(v: Seq<Vec<Vec<String>>>) -> Seq<Seq<Seq<Seq<char>>>> {
    v.map_values(|e: Vec<Vec<String>>| piece_lists(e@))
}

/// The view of an optional string.
pub open spec fn optional_view(value: Option<String>) -> Option<Seq<char>> {
    match value {
        Some(v) => Some(v@),
        None => None,
    }
}

/// The views of rows of optional strings.
pub open spec fn attribute_rows(v: Seq<Vec<Option<String>>>) -> Seq<Seq<Option<Seq<char>>>> {
    v.map_values(|row: Vec<Option<String>>| row@.map_values(|a: Option<String>| optional_view(a)))
}

/// The views of `(text, href)` pairs.
pub open spec fn link_nodes(v: Seq<(String, Option<String>)>) -> Seq<(Seq<char>, Option<Seq<char>>)> {
    v.map_values(|n: (String, Option<String>)| (n.0@, optional_view(n.1)))
}

/// `scraper`: parses `html` as a document and, for each element the selector
/// `css` matches, collects its text nodes. Claimed: the result is
/// [`element_texts`] of the page and the selector.
#[verifier::external_body]
pub(crate) fn select_texts(html: &str, css: &str) -> (r: Vec<Vec<String>>)
    ensures
        piece_lists(r@) == element_texts(html@, css@),
{
    let mut out = Vec::new();
    if let Ok(selector) = scraper::Selector::parse(css) {
        for element in scraper::Html::parse_document(html).select(&selector) {
            out.push(element.text().map(str::to_string).collect());
        }
    }
    out
}

/// `scraper`: parses `html` as a document and, for each element `outer`
/// matches, collects the text nodes of each descendant `inner` matches.
/// Claimed: the result is [`nested_element_texts`] of the page and selectors.
#[verifier::external_body]
pub(crate) fn select_nested_texts(html: &str, outer: &str, inner: &str) -> (r: Vec<Vec<Vec<String>>>)
    ensures
        nested_piece_lists(r@) == nested_element_texts(html@, outer@, inner@),
{
    let mut out = Vec::new();
    if let (Ok(outer), Ok(inner)) = (scraper::Selector::parse(outer), scraper::Selector::parse(inner)) {
        for element in scraper::Html::parse_document(html).select(&outer) {
            let mut cells = Vec::new();
            for cell in element.select(&inner) {
                cells.push(cell.text().map(str::to_string).collect());
            }
            out.push(cells);
        }
    }
    out
}

/// `scraper`: parses `html` as a document and, for each element `css`
/// matches, reads the attributes `names`. Claimed: the result is
/// [`element_attributes`] of the page, selector and names, one value per name.
#[verifier::external_body]
pub(crate) fn select_attributes(html: &str, css: &str, names: &Vec<&str>) -> (r: Vec<Vec<Option<String>>>)
    ensures
        attribute_rows(r@) == element_attributes(html@, css@, names.deep_view()),
        forall|i: int| 0 <= i < r@.len() ==> (#[trigger] r@[i])@.len() == names@.len(),
{
    let mut out = Vec::new();
    if let Ok(selector) = scraper::Selector::parse(css) {
        for element in scraper::Html::parse_document(html).select(&selector) {
            let mut row = Vec::new();
            for name in names {
                row.push(element.attr(name).map(str::to_string));
            }
            out.push(row);
        }
    }
    out
}

/// `scraper`: every text node of the parsed document, concatenated. Claimed:
/// the result is [`document_text`] of the page.
#[verifier::external_body]
pub(crate) fn select_document_text(html: &str) -> (r: String)
    ensures
        r@ == document_text(html@),
{
    scraper::Html::parse_document(html).root_element().text().collect()
}

/// `select`: parses `html` and finds each node with class `inner` that
/// descends from a node with class `outer`, reading its text and `href`.
/// Claimed: the result is [`class_links`] of the page and the two classes.
#[verifier::external_body]
pub(crate) fn find_class_links(html: &str, outer: &str, inner: &str) -> (r: Vec<(String, Option<String>)>)
    ensures
        link_nodes(r@) == class_links(html@, outer@, inner@),
{
    let document = select::document::Document::from(html);
    let mut out = Vec::new();
    let predicate = select::predicate::Class(outer).descendant(select::predicate::Class(inner));
    for node in document.find(predicate) {
        out.push((node.text(), node.attr("href").map(str::to_string)));
    }
    out
}

/// `select`: parses `html` and finds each node named `name` that descends
/// from a node with class `outer`, reading its text and `href`. Claimed: the
/// result is [`named_links`] of the page, the class and the name.
#[verifier::external_body]
pub(crate) fn find_named_links(html: &str, outer: &str, name: &str) -> (r: Vec<(String, Option<String>)>)
    ensures
        link_nodes(r@) == named_links(html@, outer@, name@),
{
    let document = select::document::Document::from(html);
    let mut out = Vec::new();
    let predicate = select::predicate::Class(outer).descendant(select::predicate::Name(name));
    for node in document.find(predicate) {
        out.push((node.text(), node.attr("href").map(str::to_string)));
    }
    out
}

} // verus!
