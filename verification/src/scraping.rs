//! HTML text extraction and hyperlink extraction. The parsing itself is done
//! by the kuchiki and scraper libraries behind two trusted wrappers; which
//! subtrees are stripped and which attribute is read is decided here, in
//! verified code.

use vstd::prelude::*;

use html5ever::tendril::TendrilSink;

verus! {

/// What kuchiki returns for a document and a selector list: parse `html`
/// tolerantly, detach every element matching `selector` together with its
/// subtree, and concatenate the text nodes that remain, in tree order. A
/// function of its two arguments alone.
pub uninterp spec fn stripped_text_of(html: Seq<char>, selector: Seq<char>) -> Seq<char>;

/// Relies on kuchiki's `parse_html` (an html5ever parse driven through
/// `TendrilSink::one`, which never fails on malformed markup),
/// `NodeRef::select`, `NodeRef::detach` and `NodeRef::text_contents`:
/// parses the document, detaches every element matching the selector list,
/// and returns the concatenated text of the remaining nodes in tree order —
/// deterministic in its two arguments.
#[verifier::external_body]
fn strip_and_text(html: &str, selector: &str) -> (r: String)
    ensures
        r@ == stripped_text_of(html@, selector@),
{
    let doc = kuchiki::parse_html().one(html);
    if let Ok(found) = doc.select(selector) {
        let found: Vec<_> = found.collect();
        for element in found {
            element.as_node().detach();
        }
    }
    doc.text_contents()
}

/// The text the crawler keeps of a page: every text node outside `head` and
/// `script` subtrees.
pub open spec fn extracted_text_of(html: Seq<char>) -> Seq<char> {
    stripped_text_of(html, "head, script"@)
}

/// The plain text of an HTML page: `head` and `script` subtrees (and their
/// descendants) are removed, the remaining text nodes concatenated. Both
/// indexing passes tokenize exactly this text.
pub fn get_words(text: &str) -> (r: String)
    ensures
        r@ == extracted_text_of(text@),
{
    strip_and_text(text, "head, script")
}

/// What scraper returns for a document, a selector and an attribute name:
/// the attribute's value on each element matching the selector, in document
/// order, elements without the attribute skipped. A function of its three
/// arguments alone.
pub uninterp spec fn selected_attr_values_of(
    html: Seq<char>,
    selector: Seq<char>,
    attr: Seq<char>,
) -> Seq<Seq<char>>;

/// Relies on scraper's `Html::parse_document` (tolerant, never fails),
/// `Selector::parse` and `ElementRef::attr`: collects the given attribute's
/// values over the elements matching the selector, in the order scraper
/// yields matches (node-creation order, which for well-formed markup is
/// document order) — deterministic in its three arguments.
#[verifier::external_body]
fn select_attr_values(html: &str, selector: &str, attr: &str) -> (r: Vec<String>)
    ensures
        r.deep_view() == selected_attr_values_of(html@, selector@, attr@),
{
    let mut out: Vec<String> = Vec::new();
    if let Ok(sel) = scraper::Selector::parse(selector) {
        for element in scraper::Html::parse_document(html).select(&sel) {
            if let Some(value) = element.value().attr(attr) {
                out.push(value.to_owned());
            }
        }
    }
    out
}

/// The `href` values of a document's anchor elements, in the order the
/// parser yields them.
pub open spec fn anchor_hrefs_of(html: Seq<char>) -> Seq<Seq<char>> {
    selected_attr_values_of(html, "a"@, "href"@)
}

/// The hyperlink targets of a page: the `href` attribute of each `a`
/// element, in the order the parser yields them. The only way the
/// frontier grows beyond the seed URLs.
pub fn extract_links(html: &str) -> (r: Vec<String>)
    ensures
        r.deep_view() == anchor_hrefs_of(html@),
{
    select_attr_values(html, "a", "href")
}

} // verus!
