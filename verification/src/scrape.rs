//! The compute side of the two-tier scraper: URL normalization, parsing a
//! fetched document into contact data, the sufficiency test that ends the
//! fast path, and the URL-keyed cache. The fetches themselves are I/O and
//! live outside the library.
use vstd::prelude::*;
use crate::email::{extract_emails, extract_emails_spec, email_matches_of};
use crate::phone::{extract_phones, extract_phones_spec};
use crate::text::{chars_of, starts_with, starts_with_exec};
use crate::time::now_millis;

verus! {

/// What scraping one URL produced. The timestamp is UTC milliseconds.
#[derive(Debug)]
pub struct ScrapedData {
    pub url: String,
    pub emails: Vec<String>,
    pub phones: Vec<String>,
    pub html: Option<String>,
    pub scraped_at: i64,
}

/// Field-by-field sameness of two scrape results, by content.
pub open spec fn scraped_like(a: &ScrapedData, b: &ScrapedData) -> bool {
    &&& a.url@ == b.url@
    &&& a.emails@ == b.emails@
    &&& a.phones@ == b.phones@
    &&& a.html == b.html
    &&& a.scraped_at == b.scraped_at
}

impl Clone for ScrapedData {
    fn clone(&self) -> (r: Self)
        ensures
            scraped_like(&r, self),
    {
        let html: Option<String> = match &self.html {
            Some(h) => Some(h.clone()),
            None => None,
        };
        let r = ScrapedData {
            url: self.url.clone(),
            emails: self.emails.clone(),
            phones: self.phones.clone(),
            html,
            scraped_at: self.scraped_at,
        };
        assert(r.emails@ =~= self.emails@);
        assert(r.phones@ =~= self.phones@);
        r
    }
}

// ---------- URL normalization ----------

/// The canonical serialization of a URL string, or nothing when it does not
/// parse.
pub uninterp spec fn url_canon(s: Seq<char>) -> Option<Seq<char>>;

/// Relies on `url::Url::parse` and its serialization: parsing a fixed string
/// has a fixed outcome; on success the result is the URL's canonical text.
#[verifier::external_body]
fn parse_and_canonicalize(s: &str) -> (r: Option<String>)
    ensures
        r is Some <==> url_canon(s@) is Some,
        r matches Some(c) ==> url_canon(s@) == Some(c@),
{
    url::Url::parse(s).ok().map(|u| u.to_string())
}

/// The input with `https://` prepended when no scheme is written.
pub open spec fn with_scheme(u: Seq<char>) -> Seq<char> {
    if starts_with(u, "http://"@) || starts_with(u, "https://"@) {
        u
    } else {
        "https://"@ + u
    }
}

/// The canonical form of a URL, a missing scheme read as `https`; `None`
/// exactly when the completed string is no URL.
pub fn normalize_url(url: &str) -> (r: Option<String>)
    ensures
        r is Some <==> url_canon(with_scheme(url@)) is Some,
        r matches Some(c) ==> url_canon(with_scheme(url@)) == Some(c@),
{
    let v: Vec<char> = chars_of(url);
    let h1: Vec<char> = chars_of("http://");
    let h2: Vec<char> = chars_of("https://");
    let prefixed: String = if starts_with_exec(&v, &h1) || starts_with_exec(&v, &h2) {
        String::from_str(url)
    } else {
        let mut p: String = String::from_str("https://");
        p.append(url);
        p
    };
    assert(prefixed@ == with_scheme(url@));
    parse_and_canonicalize(prefixed.as_str())
}

// ---------- parsing a fetched document ----------

/// Harvest contacts from a fetched document and keep the raw HTML for the
/// audit step.
pub fn parse_html(html: &str, url: &str) -> (r: ScrapedData)
    ensures
        r.url@ == url@,
        crate::text::string_views(r.emails@) == extract_emails_spec(email_matches_of(html@)),
        crate::text::string_views(r.phones@) == extract_phones_spec(html@),
        r.html matches Some(h) && h@ == html@,
{
    let emails: Vec<String> = extract_emails(html);
    let phones: Vec<String> = extract_phones(html);
    ScrapedData {
        url: String::from_str(url),
        emails,
        phones,
        html: Some(String::from_str(html)),
        scraped_at: now_millis(),
    }
}

/// The fast path suffices when it recovered a contact.
pub fn has_enough_data(data: &ScrapedData) -> (r: bool)
    ensures
        r == (data.emails@.len() > 0 || data.phones@.len() > 0),
{
    data.emails.len() > 0 || data.phones.len() > 0
}

// ---------- the cache ----------

/// The value under the first entry whose key reads `k`.
pub open spec fn find_key(s: Seq<(String, ScrapedData)>, k: Seq<char>) -> Option<ScrapedData>
    decreases s.len(),
{
    if s.len() == 0 {
        None
    } else if s[0].0@ == k {
        Some(s[0].1)
    } else {
        find_key(s.drop_first(), k)
    }
}

/// A URL-to-result map with no expiry; a newer entry for a key shadows an
/// older one.
pub struct ScraperCache {
    entries: Vec<(String, ScrapedData)>,
}

impl Default for ScraperCache {
    fn default() -> (r: Self)
        ensures
            forall|k: Seq<char>| r.lookup(k) is None,
    {
        ScraperCache::new()
    }
}

impl ScraperCache {
    pub closed spec fn contents(&self) -> Seq<(String, ScrapedData)> {
        self.entries@
    }

    pub open spec fn lookup(&self, k: Seq<char>) -> Option<ScrapedData> {
        find_key(self.contents(), k)
    }

    pub fn new() -> (r: Self)
        ensures
            forall|k: Seq<char>| r.lookup(k) is None,
    {
        let r = ScraperCache { entries: Vec::new() };
        assert(r.entries@.len() == 0);
        r
    }



    /// A copy of the newest entry stored under `url`, if one is there.
    pub fn get(&self, url: &str) -> (r: Option<ScrapedData>)
        ensures
            r is Some <==> self.lookup(url@) is Some,
            r matches Some(d) ==> self.lookup(url@) matches Some(e) && scraped_like(&d, &e),
    {
        let target: String = String::from_str(url);
        assert(target@ == url@);
        let n: usize = self.entries.len();
        let mut i: usize = 0;
        assert(self.entries@.skip(0) =~= self.entries@);
        while i < n
            invariant
                0 <= i <= n,
                n == self.entries@.len(),
                target@ == url@,
                find_key(self.entries@.skip(i as int), url@) == find_key(self.entries@, url@),
            decreases n - i,
        {
            let ghost rest = self.entries@.skip(i as int);
            assert(rest[0] == self.entries@[i as int]);
            let hit: bool = self.entries[i].0.eq(&target);
            proof {
                assert(rest.drop_first() =~= self.entries@.skip(i + 1));
                assert(hit == (rest[0].0@ == url@));
            }
            if hit {
                assert(find_key(rest, url@) == Some(rest[0].1));
                return Some(self.entries[i].1.clone());
            }
            assert(find_key(rest, url@) == find_key(self.entries@.skip(i + 1), url@));
            i += 1;
        }
        assert(self.entries@.skip(n as int) =~= Seq::<(String, ScrapedData)>::empty());
        None
    }

    /// Store `data` under `url`, shadowing any earlier entry for that URL and
    /// leaving every other key as it was.
    pub fn set(&mut self, url: String, data: ScrapedData)
        ensures
            final(self).lookup(url@) == Some(data),
            forall|k: Seq<char>|
                k != url@ ==> final(self).lookup(k) == old(self).lookup(k),
    {
        let ghost oldentries = self.entries@;
        let ghost gx: (String, ScrapedData) = (url, data);
        let pair: (String, ScrapedData) = (url, data);
        self.entries.insert(0, pair);
        proof {
            assert(self.entries@ == oldentries.insert(0, gx));
            oldentries.insert_ensures(0, gx);
            assert(self.entries@[0] == gx);
            assert(self.entries@.drop_first() =~= oldentries);
            assert(find_key(self.entries@, gx.0@) == Some(gx.1));
            assert forall|k: Seq<char>| k != gx.0@ implies find_key(self.entries@, k) == find_key(
                oldentries,
                k,
            ) by {
                assert(find_key(self.entries@, k) == find_key(self.entries@.drop_first(), k));
            };
        }
    }
}

} // verus!
