//! Walking an HTML page with `scraper`.
//!
//! Nothing in this module is proved, and nothing is claimed: each function
//! makes one call into `scraper` and hands back what came of it. What the
//! crate does with the outcome is verified for every outcome.

use vstd::prelude::*;

verus! {

/// A parsed page of `scraper`. The verifier sees nothing inside it.
#[verifier::external_type_specification]
#[verifier::external_body]
pub struct ExHtml(scraper::Html);

/// A parsed selector of `scraper`. The verifier sees nothing inside it.
#[verifier::external_type_specification]
#[verifier::external_body]
pub struct ExSelector(scraper::Selector);

/// An element of a parsed page. The verifier sees nothing inside it.
#[verifier::external_type_specification]
#[verifier::external_body]
pub struct ExElementRef<'a>(scraper::ElementRef<'a>);

/// The error of a selector that does not parse. The verifier sees nothing
/// inside it.
#[verifier::external_type_specification]
#[verifier::external_body]
pub struct ExSelectorErrorKind(scraper::error::SelectorErrorKind);

/// Calls `Html::parse_fragment`, which takes every text.
#[verifier::external_body]
pub(crate) fn parse_fragment(page: &str) -> scraper::Html {
    scraper::Html::parse_fragment(page)
}

/// Calls `Selector::parse`.
#[verifier::external_body]
pub(crate) fn parse_selector(text: &str) -> Result<
    scraper::Selector,
    scraper::error::SelectorErrorKind,
> {
    scraper::Selector::parse(text)
}

/// Calls `Html::select` and collects the elements that it walks.
#[verifier::external_body]
pub(crate) fn select_in_page<'a>(page: &'a scraper::Html, selector: &scraper::Selector) -> Vec<
    scraper::ElementRef<'a>,
> {
    page.select(selector).collect()
}

/// Calls `ElementRef::select` and collects the elements that it walks.
#[verifier::external_body]
pub(crate) fn select_in_element<'a>(
    element: &scraper::ElementRef<'a>,
    selector: &scraper::Selector,
) -> Vec<scraper::ElementRef<'a>> {
    element.select(selector).collect()
}

/// Calls `ElementRef::inner_html`.
#[verifier::external_body]
pub(crate) fn inner_html(element: &scraper::ElementRef) -> String {
    element.inner_html()
}

} // verus!
