//! Link extraction: the raw hyperlink and embedded-asset targets present on a
//! fetched HTML page.
use vstd::prelude::*;

verus! {

/// Names what extraction returns on a given markup text: the `href` values of
/// its anchors followed by the `src` values of its images, in the order the
/// parsed tree yields them, a function of the markup alone.
pub uninterp spec fn links_of(html: Seq<char>) -> Seq<Seq<char>>;

/// Relies on `scraper::Html::parse_fragment`, `scraper::Selector::parse` and
/// `scraper::ElementRef::attr`: best-effort parsing that never fails, whose
/// anchor `href` and image `src` attribute values depend on the markup alone.
#[verifier::external_body]
pub(crate) fn extract_links(html: &str) -> (r: Vec<String>)
    ensures
        r.deep_view() == links_of(html@),
{
    let doc = scraper::Html::parse_fragment(html);
    let sel_a = scraper::Selector::parse("a").unwrap();
    let sel_img = scraper::Selector::parse("img").unwrap();
    let mut out = Vec::new();
    for el in doc.select(&sel_a) {
        if let Some(href) = el.attr("href") {
            out.push(href.to_string());
        }
    }
    for el in doc.select(&sel_img) {
        if let Some(src) = el.attr("src") {
            out.push(src.to_string());
        }
    }
    out
}

} // verus!
