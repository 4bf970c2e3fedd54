//! Reading attributes out of HTML pages, by CSS selector.

use scraper::{Html, Selector};
use vstd::prelude::*;

verus! {

/// What `select_attributes` reads from a page: `None` when the selector is not
/// valid CSS, else the value of the attribute on each matching element, in
/// document order (`None` for an element without the attribute).
pub uninterp spec fn selected_attributes(
    html: Seq<char>,
    selector: Seq<char>,
    attribute: Seq<char>,
) -> Option<Seq<Option<Seq<char>>>>;

/// What `select_nested_attributes` reads from a page: `None` when a selector is
/// not valid CSS, else, for each element matching `outer` in document order, the
/// value of the attribute on each of its descendants that match `inner`.
pub uninterp spec fn nested_selected_attributes(
    html: Seq<char>,
    outer: Seq<char>,
    inner: Seq<char>,
    attribute: Seq<char>,
) -> Option<Seq<Seq<Option<Seq<char>>>>>;

/// Parses `html` with `scraper::Html::parse_document`, parses `selector` with
/// `scraper::Selector::parse`, and reads `attribute` (`Element::attr`) of every
/// element that `Html::select` yields. The contract only names the result: it is
/// a function of the three arguments (html5ever's parse and the selector match
/// are deterministic); what that function is takes the HTML and CSS standards.
#[verifier::external_body]
pub(crate) fn select_attributes(html: &str, selector: &str, attribute: &str) -> (r: Option<
    Vec<Option<String>>,
>)
    ensures
        r.deep_view() == selected_attributes(html@, selector@, attribute@),
{
    let document = Html::parse_document(html);
    let selector = match Selector::parse(selector) {
        Ok(s) => s,
        Err(_) => return None,
    };
    let mut values = Vec::new();
    for element in document.select(&selector) {
        values.push(element.value().attr(attribute).map(String::from));
    }
    Some(values)
}

/// Parses `html` with `scraper::Html::parse_document`, parses both selectors with
/// `scraper::Selector::parse`, and for each element that `Html::select` yields for
/// `outer`, reads `attribute` of each element that `ElementRef::select` yields for
/// `inner` below it. The contract only names the result, a function of the four
/// arguments.
#[verifier::external_body]
pub(crate) fn select_nested_attributes(html: &str, outer: &str, inner: &str, attribute: &str) -> (r:
    Option<Vec<Vec<Option<String>>>>)
    ensures
        r.deep_view() == nested_selected_attributes(html@, outer@, inner@, attribute@),
{
    let document = Html::parse_document(html);
    let (outer, inner) = match (Selector::parse(outer), Selector::parse(inner)) {
        (Ok(o), Ok(i)) => (o, i),
        _ => return None,
    };
    let mut groups = Vec::new();
    for element in document.select(&outer) {
        groups.push(element.select(&inner).map(|e| e.value().attr(attribute).map(String::from)).collect());
    }
    Some(groups)
}

} // verus!
