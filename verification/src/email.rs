//! E-mail harvesting: the raw pattern matches come from the `regex` crate;
//! lowercasing, filtering of asset names and trackers, and deduplication are
//! verified here.
use vstd::prelude::*;
use crate::text::{
    chars_of, contains_seq, contains_sub, contains_string, ends_with, ends_with_exec, lower_char,
    starts_with, starts_with_exec, string_of, string_views, to_lower, to_lower_exec,
};

verus! {

/// The matches of the e-mail pattern in a text, left to right.
pub uninterp spec fn email_matches_of(html: Seq<char>) -> Seq<Seq<char>>;

/// Relies on `regex::Regex::find_iter` with the fixed e-mail pattern below:
/// the list of matches is a function of the text alone, found left to right.
#[verifier::external_body]
fn email_pattern_matches(html: &str) -> (r: Vec<String>)
    ensures
        string_views(r@) == email_matches_of(html@),
{
    let re = regex::Regex::new(r"(?i)\b[A-Za-z0-9._%+-]+@[A-Za-z0-9.-]+\.[A-Z|a-z]{2,}\b").unwrap();
    re.find_iter(html).map(|m| m.as_str().to_string()).collect()
}

/// An address that is really an image asset name or a tracker host.
pub open spec fn is_invalid_email_spec(e: Seq<char>) -> bool {
    ||| ends_with(e, ".png"@)
    ||| ends_with(e, ".jpg"@)
    ||| ends_with(e, ".jpeg"@)
    ||| ends_with(e, ".gif"@)
    ||| ends_with(e, ".svg"@)
    ||| ends_with(e, ".webp"@)
    ||| contains_seq(e, "@sentry"@)
}

fn invalid_email_chars(v: &Vec<char>) -> (r: bool)
    ensures
        r == is_invalid_email_spec(v@),
{
    let png: Vec<char> = chars_of(".png");
    let jpg: Vec<char> = chars_of(".jpg");
    let jpeg: Vec<char> = chars_of(".jpeg");
    let gif: Vec<char> = chars_of(".gif");
    let svg: Vec<char> = chars_of(".svg");
    let webp: Vec<char> = chars_of(".webp");
    let sentry: Vec<char> = chars_of("@sentry");
    ends_with_exec(v, &png) || ends_with_exec(v, &jpg) || ends_with_exec(v, &jpeg)
        || ends_with_exec(v, &gif) || ends_with_exec(v, &svg) || ends_with_exec(v, &webp)
        || contains_sub(v, &sentry)
}

pub fn is_invalid_email(email: &str) -> (r: bool)
    ensures
        r == is_invalid_email_spec(email@),
{
    let v: Vec<char> = chars_of(email);
    invalid_email_chars(&v)
}

/// The harvested addresses: each pattern match lowercased, asset names and
/// tracker hosts dropped, first occurrences kept.
pub open spec fn collect_emails(ms: Seq<Seq<char>>, acc: Seq<Seq<char>>) -> Seq<Seq<char>>
    decreases ms.len(),
{
    if ms.len() == 0 {
        acc
    } else {
        let low = to_lower(ms[0]);
        let acc2 = if !is_invalid_email_spec(low) && !acc.contains(low) {
            acc.push(low)
        } else {
            acc
        };
        collect_emails(ms.drop_first(), acc2)
    }
}

pub open spec fn extract_emails_spec(ms: Seq<Seq<char>>) -> Seq<Seq<char>> {
    collect_emails(ms, Seq::empty())
}

proof fn lemma_views_contains(v: Seq<String>, e: Seq<char>)
    ensures
        string_views(v).contains(e) == contains_string(v, e),
{
    if string_views(v).contains(e) {
        let i = choose|i: int| 0 <= i < string_views(v).len() && string_views(v)[i] == e;
        assert(v[i]@ == e);
        assert(contains_string(v, e));
    }
    if contains_string(v, e) {
        let i = choose|i: int| 0 <= i < v.len() && v[i]@ == e;
        assert(string_views(v)[i] == e);
    }
}

/// Elements already distinct and lowercase-fixed stay so as more matches are
/// folded in.
proof fn lemma_collect_emails_props(ms: Seq<Seq<char>>, acc: Seq<Seq<char>>)
    requires
        forall|i: int, j: int| 0 <= i < j < acc.len() ==> acc[i] != acc[j],
        forall|i: int| 0 <= i < acc.len() ==> to_lower(#[trigger] acc[i]) == acc[i],
    ensures
        forall|i: int, j: int|
            0 <= i < j < collect_emails(ms, acc).len() ==> collect_emails(ms, acc)[i]
                != collect_emails(ms, acc)[j],
        forall|i: int|
            0 <= i < collect_emails(ms, acc).len() ==> to_lower(
                #[trigger] collect_emails(ms, acc)[i],
            ) == collect_emails(ms, acc)[i],
    decreases ms.len(),
{
    if ms.len() > 0 {
        let low = to_lower(ms[0]);
        lemma_to_lower_idempotent(ms[0]);
        if !is_invalid_email_spec(low) && !acc.contains(low) {
            let acc2 = acc.push(low);
            assert(forall|i: int| 0 <= i < acc.len() ==> acc2[i] == acc[i]);
            assert(acc2[acc.len() as int] == low);
            assert forall|i: int, j: int| 0 <= i < j < acc2.len() implies acc2[i] != acc2[j] by {
                if j == acc.len() {
                    assert(acc.contains(acc[i]));
                }
            };
            lemma_collect_emails_props(ms.drop_first(), acc2);
            assert(collect_emails(ms, acc) == collect_emails(ms.drop_first(), acc2));
        } else {
            lemma_collect_emails_props(ms.drop_first(), acc);
            assert(collect_emails(ms, acc) == collect_emails(ms.drop_first(), acc));
        }
    }
}

/// ASCII lowercasing is idempotent.
pub proof fn lemma_to_lower_idempotent(s: Seq<char>)
    ensures
        to_lower(to_lower(s)) == to_lower(s),
{
    assert forall|i: int| 0 <= i < s.len() implies lower_char(lower_char(s[i])) == lower_char(
        s[i],
    ) by {
        lemma_lower_char_fixed(s[i]);
    };
    assert(to_lower(to_lower(s)) =~= to_lower(s));
}

proof fn lemma_lower_char_fixed(c: char)
    ensures
        lower_char(lower_char(c)) == lower_char(c),
{
    if 'A' as u32 <= c as u32 && c as u32 <= 'Z' as u32 {
        let u: u32 = (c as u32 + 32) as u32;
        assert((u as char) as u32 == u);
    }
}

/// The addresses harvested from `html`, lowercased, filtered and
/// duplicate-free, in order of first occurrence.
pub fn extract_emails(html: &str) -> (r: Vec<String>)
    ensures
        string_views(r@) == extract_emails_spec(email_matches_of(html@)),
        forall|i: int, j: int| 0 <= i < j < r@.len() ==> r@[i]@ != r@[j]@,
        forall|i: int| 0 <= i < r@.len() ==> to_lower(#[trigger] r@[i]@) == r@[i]@,
        forall|i: int| 0 <= i < r@.len() ==> !is_invalid_email_spec(#[trigger] r@[i]@),
{
    let ms: Vec<String> = email_pattern_matches(html);
    let ghost mviews = string_views(ms@);
    let mut out: Vec<String> = Vec::new();
    let mut i: usize = 0;
    assert(mviews.skip(0) =~= mviews);
    assert(string_views(out@) =~= Seq::<Seq<char>>::empty());
    while i < ms.len()
        invariant
            0 <= i <= ms@.len(),
            mviews == string_views(ms@),
            collect_emails(mviews.skip(i as int), string_views(out@)) == extract_emails_spec(
                mviews,
            ),
            forall|k: int| 0 <= k < out@.len() ==> !is_invalid_email_spec(#[trigger] out@[k]@),
        decreases ms@.len() - i,
    {
        let mchars: Vec<char> = chars_of(ms[i].as_str());
        let low: Vec<char> = to_lower_exec(&mchars);
        let ghost rest = mviews.skip(i as int);
        assert(rest[0] == ms@[i as int]@);
        assert(mchars@ == rest[0]);
        let ghost oldout = out@;
        if !invalid_email_chars(&low) {
            let low_s: String = string_of(&low);
            let mut present: bool = false;
            let mut k: usize = 0;
            while k < out.len()
                invariant
                    0 <= k <= out@.len(),
                    low_s@ == low@,
                    present == exists|t: int| 0 <= t < k && out@[t]@ == low_s@,
                decreases out@.len() - k,
            {
                if out[k].eq(&low_s) {
                    present = true;
                }
                k += 1;
            }
            proof {
                lemma_views_contains(out@, low@);
                if present {
                    assert(contains_string(out@, low@));
                } else {
                    if contains_string(out@, low@) {
                        let t = choose|t: int| 0 <= t < out@.len() && out@[t]@ == low@;
                        assert(false);
                    }
                }
            }
            if !present {
                out.push(low_s);
                assert(string_views(out@) =~= string_views(oldout).push(low@));
            }
        }
        proof {
            assert(rest.drop_first() =~= mviews.skip(i + 1));
            assert(collect_emails(mviews.skip(i + 1), string_views(out@)) == collect_emails(
                rest,
                string_views(oldout),
            ));
        }
        i += 1;
    }
    assert(mviews.skip(ms@.len() as int) =~= Seq::<Seq<char>>::empty());
    proof {
        lemma_collect_emails_props(mviews, Seq::empty());
        assert forall|i: int, j: int| 0 <= i < j < out@.len() implies out@[i]@ != out@[j]@ by {
            assert(string_views(out@)[i] == out@[i]@);
            assert(string_views(out@)[j] == out@[j]@);
        };
        assert forall|i: int| 0 <= i < out@.len() implies to_lower(#[trigger] out@[i]@)
            == out@[i]@ by {
            assert(string_views(out@)[i] == out@[i]@);
        };
    }
    out
}

// ---------- generic-address classification ----------

/// The local part is a shared mailbox name (compared ignoring ASCII case).
pub open spec fn generic_local_part(e: Seq<char>) -> bool {
    ||| starts_with(to_lower(e), "info@"@)
    ||| starts_with(to_lower(e), "contact@"@)
    ||| starts_with(to_lower(e), "hello@"@)
    ||| starts_with(to_lower(e), "support@"@)
    ||| starts_with(to_lower(e), "admin@"@)
    ||| starts_with(to_lower(e), "sales@"@)
    ||| starts_with(to_lower(e), "no-reply@"@)
    ||| starts_with(to_lower(e), "noreply@"@)
}

/// The domain is a public mail provider.
pub open spec fn generic_domain(e: Seq<char>) -> bool {
    ||| contains_seq(e, "@gmail."@)
    ||| contains_seq(e, "@yahoo."@)
    ||| contains_seq(e, "@hotmail."@)
    ||| contains_seq(e, "@outlook."@)
    ||| contains_seq(e, "@aol."@)
    ||| contains_seq(e, "@protonmail."@)
    ||| contains_seq(e, "@icloud."@)
}

pub open spec fn is_generic_email_spec(e: Seq<char>) -> bool {
    generic_local_part(e) || generic_domain(e)
}

/// Whether an address is a shared mailbox or sits at a public mail provider.
pub fn is_generic_email(email: &str) -> (r: bool)
    ensures
        r == is_generic_email_spec(email@),
{
    let v: Vec<char> = chars_of(email);
    let low: Vec<char> = to_lower_exec(&v);
    let p1: Vec<char> = chars_of("info@");
    let p2: Vec<char> = chars_of("contact@");
    let p3: Vec<char> = chars_of("hello@");
    let p4: Vec<char> = chars_of("support@");
    let p5: Vec<char> = chars_of("admin@");
    let p6: Vec<char> = chars_of("sales@");
    let p7: Vec<char> = chars_of("no-reply@");
    let p8: Vec<char> = chars_of("noreply@");
    if starts_with_exec(&low, &p1) || starts_with_exec(&low, &p2) || starts_with_exec(&low, &p3)
        || starts_with_exec(&low, &p4) || starts_with_exec(&low, &p5) || starts_with_exec(
        &low,
        &p6,
    ) || starts_with_exec(&low, &p7) || starts_with_exec(&low, &p8) {
        return true;
    }
    let d1: Vec<char> = chars_of("@gmail.");
    let d2: Vec<char> = chars_of("@yahoo.");
    let d3: Vec<char> = chars_of("@hotmail.");
    let d4: Vec<char> = chars_of("@outlook.");
    let d5: Vec<char> = chars_of("@aol.");
    let d6: Vec<char> = chars_of("@protonmail.");
    let d7: Vec<char> = chars_of("@icloud.");
    contains_sub(&v, &d1) || contains_sub(&v, &d2) || contains_sub(&v, &d3) || contains_sub(
        &v,
        &d4,
    ) || contains_sub(&v, &d5) || contains_sub(&v, &d6) || contains_sub(&v, &d7)
}

} // verus!
