//! The per-URL audit: technology detection plus page title, meta description
//! and the SSL flag.
use vstd::prelude::*;
use crate::tech::{detect_technologies, detected_ok, Technology};
use crate::text::{chars_of, starts_with, starts_with_exec};
use crate::time::now_millis;

verus! {

/// The outcome of auditing one document at one URL. The timestamp is UTC
/// milliseconds.
#[derive(Debug, Clone)]
pub struct AuditResult {
    pub url: String,
    pub technologies: Vec<Technology>,
    pub has_ssl: bool,
    pub page_title: Option<String>,
    pub meta_description: Option<String>,
    pub audited_at: i64,
}

/// The trimmed inner HTML of the document's first `title` element, if any.
pub uninterp spec fn title_of(html: Seq<char>) -> Option<Seq<char>>;

/// Relies on `scraper::Html::parse_document`, `Selector` and `str::trim`:
/// the inner HTML of the first `title` element, surrounding whitespace
/// removed; a function of the document alone.
#[verifier::external_body]
fn document_title(html: &str) -> (r: Option<String>)
    ensures
        r is Some <==> title_of(html@) is Some,
        r matches Some(t) ==> title_of(html@) == Some(t@),
{
    let doc = scraper::Html::parse_document(html);
    let sel = scraper::Selector::parse("title").unwrap();
    doc.select(&sel).next().map(|el| el.inner_html().trim().to_string())
}

/// The `content` attribute of the first `meta name="description"` element.
pub uninterp spec fn meta_description_of(html: Seq<char>) -> Option<Seq<char>>;

/// Relies on `scraper::Html::parse_document` and `Selector`: the `content`
/// attribute of the first description meta; a function of the document alone.
#[verifier::external_body]
fn document_meta_description(html: &str) -> (r: Option<String>)
    ensures
        r is Some <==> meta_description_of(html@) is Some,
        r matches Some(d) ==> meta_description_of(html@) == Some(d@),
{
    let doc = scraper::Html::parse_document(html);
    let sel = scraper::Selector::parse("meta[name='description']").unwrap();
    doc.select(&sel).next().and_then(|el| el.value().attr("content")).map(|s| s.to_string())
}

/// Audit one fetched document: fingerprint it and read its title, meta
/// description, and scheme.
pub fn audit_website(html: &str, url: &str) -> (r: AuditResult)
    ensures
        r.url@ == url@,
        r.has_ssl == starts_with(url@, "https://"@),
        detected_ok(r.technologies@, html@),
        r.page_title is Some <==> title_of(html@) is Some,
        r.page_title matches Some(t) ==> title_of(html@) == Some(t@),
        r.meta_description is Some <==> meta_description_of(html@) is Some,
        r.meta_description matches Some(d) ==> meta_description_of(html@) == Some(d@),
{
    let technologies: Vec<Technology> = detect_technologies(html);
    let page_title: Option<String> = document_title(html);
    let meta_description: Option<String> = document_meta_description(html);
    let u: Vec<char> = chars_of(url);
    let https: Vec<char> = chars_of("https://");
    let has_ssl: bool = starts_with_exec(&u, &https);
    AuditResult {
        url: String::from_str(url),
        technologies,
        has_ssl,
        page_title,
        meta_description,
        audited_at: now_millis(),
    }
}

} // verus!
