//! Trusted declarations for the HTML DOM crate the card parser walks.
//! A parsed document and its elements are opaque to verification: the
//! wrappers carry values through, and everything the engine concludes
//! from them is concluded from the extracted plain text by verified
//! code.

use vstd::prelude::*;

verus! {

#[verifier::external_type_specification]
#[verifier::external_body]
pub struct ExHtml(scraper::Html);

#[verifier::external_type_specification]
#[verifier::external_body]
pub struct ExSelector(scraper::Selector);

#[verifier::external_type_specification]
#[verifier::external_body]
pub struct ExElementRef<'a>(scraper::ElementRef<'a>);

/// Relies on scraper::Html::parse_document: parses HTML text into a
/// document tree, never failing (invalid bytes are replaced, invalid
/// markup is repaired).
#[verifier::external_body]
pub(crate) fn parse_document(html: &[u8]) -> scraper::Html {
    scraper::Html::parse_document(&String::from_utf8_lossy(html))
}

/// Relies on scraper::Selector::parse: compiles a CSS selector.
#[verifier::external_body]
pub(crate) fn parse_selector(css: &str) -> Option<scraper::Selector> {
    scraper::Selector::parse(css).ok()
}

/// Relies on scraper::Html::select: the elements matching the selector,
/// in document order.
#[verifier::external_body]
pub(crate) fn select_in_doc<'a>(
    doc: &'a scraper::Html,
    sel: &scraper::Selector,
) -> Vec<scraper::ElementRef<'a>> {
    doc.select(sel).collect()
}

/// Relies on scraper::ElementRef::select: the matching descendants of
/// an element, in document order.
#[verifier::external_body]
pub(crate) fn select_in_elem<'a>(
    el: &scraper::ElementRef<'a>,
    sel: &scraper::Selector,
) -> Vec<scraper::ElementRef<'a>> {
    el.select(sel).collect()
}

/// Relies on scraper::ElementRef::select: the first matching
/// descendant, if any.
#[verifier::external_body]
pub(crate) fn select_first_in_elem<'a>(
    el: &scraper::ElementRef<'a>,
    sel: &scraper::Selector,
) -> Option<scraper::ElementRef<'a>> {
    el.select(sel).next()
}

/// Relies on scraper::ElementRef::text: the concatenated text of the
/// element's subtree.
#[verifier::external_body]
pub(crate) fn elem_text(el: &scraper::ElementRef<'_>) -> Vec<u8> {
    el.text().collect::<String>().into_bytes()
}

/// Relies on scraper::ElementRef::attr: the value of the named
/// attribute, if present.
#[verifier::external_body]
pub(crate) fn elem_attr(el: &scraper::ElementRef<'_>, name: &str) -> Option<Vec<u8>> {
    el.attr(name).map(|v| v.as_bytes().to_vec())
}

} // verus!
