//! Phone harvesting: markup is stripped by a verified scanner, the candidate
//! matches come from the `regex` crate, and normalization, validation and
//! deduplication are verified here.
use vstd::prelude::*;
use crate::text::{
    chars_of, contains_seq, contains_sub, is_digit_char, is_digit_char_exec,
    lemma_string_views_push, occurs_at, starts_with, starts_with_exec, string_of, string_views,
};

verus! {

// ---------- tag stripping ----------

/// Position of the first `>` in `s`, or -1 when there is none.
pub open spec fn first_close(s: Seq<char>) -> int
    decreases s.len(),
{
    if s.len() == 0 {
        -1
    } else if s[0] == '>' {
        0
    } else {
        let r = first_close(s.drop_first());
        if r == -1 {
            -1
        } else {
            r + 1
        }
    }
}

proof fn lemma_first_close(s: Seq<char>)
    ensures
        first_close(s) == -1 ==> forall|k: int| 0 <= k < s.len() ==> s[k] != '>',
        first_close(s) != -1 ==> 0 <= first_close(s) < s.len() && s[first_close(s)] == '>' && (
        forall|k: int| 0 <= k < first_close(s) ==> s[k] != '>'),
    decreases s.len(),
{
    if s.len() > 0 && s[0] != '>' {
        lemma_first_close(s.drop_first());
        assert(forall|k: int| 1 <= k < s.len() ==> s[k] == s.drop_first()[k - 1]);
    }
}

/// The text with every `<`...`>` run replaced by one space; a `<` with no
/// closing `>` anywhere after it is kept as it stands.
pub open spec fn strip_tags_spec(s: Seq<char>) -> Seq<char>
    decreases s.len(),
{
    if s.len() == 0 {
        Seq::empty()
    } else if s[0] == '<' {
        let k = first_close(s);
        if 0 <= k < s.len() {
            seq![' '] + strip_tags_spec(s.skip(k + 1))
        } else {
            s
        }
    } else {
        seq![s[0]] + strip_tags_spec(s.drop_first())
    }
}

proof fn lemma_strip_no_close(s: Seq<char>)
    requires
        forall|k: int| 0 <= k < s.len() ==> s[k] != '>',
    ensures
        strip_tags_spec(s) == s,
    decreases s.len(),
{
    if s.len() > 0 {
        if s[0] == '<' {
            lemma_first_close(s);
            if 0 <= first_close(s) < s.len() {
                assert(false);
            }
        } else {
            assert(forall|k: int| 1 <= k < s.len() ==> s[k] == s.drop_first()[k - 1]);
            lemma_strip_no_close(s.drop_first());
            assert(seq![s[0]] + s.drop_first() =~= s);
        }
    } else {
        assert(strip_tags_spec(s) =~= s);
    }
}

/// First position at or after `from` holding `c`, if any.
fn find_char_from(v: &Vec<char>, from: usize, c: char) -> (r: Option<usize>)
    requires
        from <= v@.len(),
    ensures
        r matches Some(k) ==> from <= k < v@.len() && v@[k as int] == c && forall|j: int|
            from <= j < k ==> v@[j] != c,
        r is None ==> forall|j: int| from <= j < v@.len() ==> v@[j] != c,
{
    let n: usize = v.len();
    let mut k: usize = from;
    while k < n
        invariant
            from <= k <= n,
            n == v@.len(),
            forall|j: int| from <= j < k ==> v@[j] != c,
        decreases n - k,
    {
        if v[k] == c {
            return Some(k);
        }
        k += 1;
    }
    None
}

fn strip_tags_chars(v: &Vec<char>) -> (r: Vec<char>)
    ensures
        r@ == strip_tags_spec(v@),
{
    let n: usize = v.len();
    let mut out: Vec<char> = Vec::new();
    let mut i: usize = 0;
    assert(v@.skip(0) =~= v@);
    assert(out@ + strip_tags_spec(v@) =~= strip_tags_spec(v@));
    while i < n
        invariant
            0 <= i <= n,
            n == v@.len(),
            strip_tags_spec(v@) == out@ + strip_tags_spec(v@.skip(i as int)),
        decreases n - i,
    {
        let ghost rest = v@.skip(i as int);
        assert(rest[0] == v@[i as int]);
        let ghost oldout = out@;
        if v[i] == '<' {
            match find_char_from(v, i + 1, '>') {
                Some(k) => {
                    out.push(' ');
                    proof {
                        lemma_first_close(rest);
                        assert(rest[k - i] == '>');
                        assert(forall|j: int| 1 <= j < k - i ==> rest[j] == v@[i + j]);
                        assert(forall|j: int| 0 <= j < k - i ==> rest[j] != '>');
                        if first_close(rest) == -1 {
                            assert(false);
                        }
                        if first_close(rest) < k - i {
                            assert(false);
                        }
                        if first_close(rest) > k - i {
                            assert(false);
                        }
                        assert(first_close(rest) == k - i);
                        assert(rest.skip(k - i + 1) =~= v@.skip(k + 1));
                        assert(strip_tags_spec(rest) == seq![' '] + strip_tags_spec(
                            v@.skip(k + 1),
                        ));
                        assert(out@ + strip_tags_spec(v@.skip(k + 1)) =~= oldout
                            + strip_tags_spec(rest));
                    }
                    i = k + 1;
                },
                None => {
                    out.push(v[i]);
                    proof {
                        lemma_first_close(rest);
                        assert(forall|j: int| 0 <= j < rest.len() ==> rest[j] == v@[i + j]);
                        assert(forall|j: int| 0 <= j < rest.len() ==> rest[j] != '>');
                        lemma_strip_no_close(rest);
                        assert(rest.drop_first() =~= v@.skip(i + 1));
                        lemma_strip_no_close(rest.drop_first());
                        assert(rest =~= seq![rest[0]] + rest.drop_first());
                        assert(out@ + strip_tags_spec(v@.skip(i + 1)) =~= oldout
                            + strip_tags_spec(rest));
                    }
                    i += 1;
                },
            }
        } else {
            out.push(v[i]);
            proof {
                assert(rest.drop_first() =~= v@.skip(i + 1));
                assert(strip_tags_spec(rest) == seq![rest[0]] + strip_tags_spec(v@.skip(i + 1)));
                assert(out@ + strip_tags_spec(v@.skip(i + 1)) =~= oldout + strip_tags_spec(rest));
            }
            i += 1;
        }
    }
    assert(v@.skip(n as int) =~= Seq::<char>::empty());
    assert(strip_tags_spec(v@.skip(n as int)) =~= Seq::<char>::empty());
    assert(out@ =~= out@ + Seq::<char>::empty());
    out
}

/// The text with markup runs replaced by spaces.
pub fn strip_html_tags(html: &str) -> (r: String)
    ensures
        r@ == strip_tags_spec(html@),
{
    let v: Vec<char> = chars_of(html);
    let out: Vec<char> = strip_tags_chars(&v);
    string_of(&out)
}

// ---------- the candidate patterns ----------

/// Matches of the French phone pattern, left to right.
pub uninterp spec fn phone_fr_matches_of(text: Seq<char>) -> Seq<Seq<char>>;

/// Matches of the generic international phone pattern, left to right.
pub uninterp spec fn phone_intl_matches_of(text: Seq<char>) -> Seq<Seq<char>>;

/// Matches of the four-group national phone pattern, left to right.
pub uninterp spec fn phone_block_matches_of(text: Seq<char>) -> Seq<Seq<char>>;

/// Relies on `regex::Regex::find_iter` with the fixed French phone pattern
/// below: the matches are a function of the text alone.
#[verifier::external_body]
fn fr_pattern_matches(text: &str) -> (r: Vec<String>)
    ensures
        string_views(r@) == phone_fr_matches_of(text@),
{
    let re = regex::Regex::new(r"(?:\+33|0033|0)\s*[1-9](?:[\s.-]*\d{2}){4}").unwrap();
    re.find_iter(text).map(|m| m.as_str().to_string()).collect()
}

/// Relies on `regex::Regex::find_iter` with the fixed international phone
/// pattern below: the matches are a function of the text alone.
#[verifier::external_body]
fn intl_pattern_matches(text: &str) -> (r: Vec<String>)
    ensures
        string_views(r@) == phone_intl_matches_of(text@),
{
    let re = regex::Regex::new(r"\+?\d{1,3}[\s.-]?\(?\d{1,4}\)?[\s.-]?\d{1,4}[\s.-]?\d{1,9}")
        .unwrap();
    re.find_iter(text).map(|m| m.as_str().to_string()).collect()
}

/// Relies on `regex::Regex::find_iter` with the fixed four-group pattern
/// below: the matches are a function of the text alone.
#[verifier::external_body]
fn block_pattern_matches(text: &str) -> (r: Vec<String>)
    ensures
        string_views(r@) == phone_block_matches_of(text@),
{
    let re = regex::Regex::new(r"\d{2,3}[\s.-]\d{2,3}[\s.-]\d{2,3}[\s.-]\d{2,3}").unwrap();
    re.find_iter(text).map(|m| m.as_str().to_string()).collect()
}

/// All candidate matches over the stripped text, in pattern order.
pub open spec fn phone_candidates(clean: Seq<char>) -> Seq<Seq<char>> {
    phone_fr_matches_of(clean) + phone_intl_matches_of(clean) + phone_block_matches_of(clean)
}

// ---------- normalization ----------

pub open spec fn keep_phone_char(c: char) -> bool {
    is_digit_char(c) || c == '+'
}

pub open spec fn phone_filtered(s: Seq<char>) -> Seq<char> {
    s.filter(|c: char| keep_phone_char(c))
}

/// Keep digits and `+`, then rewrite the international-zero and national-zero
/// prefixes to `+33`.
pub open spec fn normalize_phone_spec(s: Seq<char>) -> Seq<char> {
    let d = phone_filtered(s);
    if starts_with(d, "0033"@) {
        "+33"@ + d.skip(4)
    } else if d.len() >= 1 && d[0] == '0' && !(d.len() >= 2 && d[1] == '0') {
        "+33"@ + d.skip(1)
    } else {
        d
    }
}

proof fn lemma_phone_filter_step(s: Seq<char>, i: int)
    requires
        0 <= i < s.len(),
    ensures
        phone_filtered(s.subrange(0, i + 1)) == if keep_phone_char(s[i]) {
            phone_filtered(s.subrange(0, i)).push(s[i])
        } else {
            phone_filtered(s.subrange(0, i))
        },
{
    reveal(Seq::filter);
    assert(s.subrange(0, i + 1).drop_last() =~= s.subrange(0, i));
    assert(s.subrange(0, i + 1).last() == s[i]);
}

fn phone_filtered_exec(v: &Vec<char>) -> (r: Vec<char>)
    ensures
        r@ == phone_filtered(v@),
{
    let n: usize = v.len();
    let mut r: Vec<char> = Vec::new();
    let mut i: usize = 0;
    proof {
        reveal(Seq::filter);
        assert(v@.subrange(0, 0) =~= Seq::<char>::empty());
    }
    while i < n
        invariant
            0 <= i <= n,
            n == v@.len(),
            r@ == phone_filtered(v@.subrange(0, i as int)),
        decreases n - i,
    {
        let c: char = v[i];
        if is_digit_char_exec(c) || c == '+' {
            r.push(c);
        }
        proof {
            lemma_phone_filter_step(v@, i as int);
        }
        i += 1;
    }
    assert(v@.subrange(0, n as int) =~= v@);
    r
}

/// The canonical form of one candidate.
pub fn normalize_phone(phone: &str) -> (r: String)
    ensures
        r@ == normalize_phone_spec(phone@),
{
    let v: Vec<char> = chars_of(phone);
    let d: Vec<char> = phone_filtered_exec(&v);
    let zz: Vec<char> = chars_of("0033");
    proof {
        reveal_strlit("0033");
        reveal_strlit("+33");
    }
    if starts_with_exec(&d, &zz) {
        let mut out: Vec<char> = Vec::new();
        out.push('+');
        out.push('3');
        out.push('3');
        let n: usize = d.len();
        let mut k: usize = 4;
        while k < n
            invariant
                4 <= k <= n,
                n == d@.len(),
                out@ == "+33"@ + d@.subrange(4, k as int),
            decreases n - k,
        {
            out.push(d[k]);
            assert(out@ =~= "+33"@ + d@.subrange(4, k + 1));
            k += 1;
        }
        assert(d@.subrange(4, n as int) =~= d@.skip(4));
        string_of(&out)
    } else if d.len() >= 1 && d[0] == '0' && !(d.len() >= 2 && d[1] == '0') {
        let mut out: Vec<char> = Vec::new();
        out.push('+');
        out.push('3');
        out.push('3');
        let n: usize = d.len();
        let mut k: usize = 1;
        while k < n
            invariant
                1 <= k <= n,
                n == d@.len(),
                out@ == "+33"@ + d@.subrange(1, k as int),
            decreases n - k,
        {
            out.push(d[k]);
            assert(out@ =~= "+33"@ + d@.subrange(1, k + 1));
            k += 1;
        }
        assert(d@.subrange(1, n as int) =~= d@.skip(1));
        string_of(&out)
    } else {
        string_of(&d)
    }
}

// ---------- validation ----------

pub open spec fn digit_count(s: Seq<char>) -> nat
    decreases s.len(),
{
    if s.len() == 0 {
        0
    } else {
        digit_count(s.drop_last()) + if is_digit_char(s.last()) {
            1nat
        } else {
            0nat
        }
    }
}

/// Between 10 and 15 digits, and not the ascending dummy block.
pub open spec fn is_valid_phone_spec(s: Seq<char>) -> bool {
    10 <= digit_count(s) <= 15 && !contains_seq(s, "1234567890"@)
}

/// Whether a canonical phone is plausible.
pub fn is_valid_phone(phone: &str) -> (r: bool)
    ensures
        r == is_valid_phone_spec(phone@),
{
    let v: Vec<char> = chars_of(phone);
    let n: usize = v.len();
    let mut count: usize = 0;
    let mut i: usize = 0;
    assert(v@.subrange(0, 0) =~= Seq::<char>::empty());
    while i < n
        invariant
            0 <= i <= n,
            n == v@.len(),
            count <= i,
            count == digit_count(v@.subrange(0, i as int)),
        decreases n - i,
    {
        if is_digit_char_exec(v[i]) {
            count += 1;
        }
        proof {
            assert(v@.subrange(0, i + 1).drop_last() =~= v@.subrange(0, i as int));
            assert(v@.subrange(0, i + 1).last() == v@[i as int]);
        }
        i += 1;
    }
    assert(v@.subrange(0, n as int) =~= v@);
    let dummy: Vec<char> = chars_of("1234567890");
    10 <= count && count <= 15 && !contains_sub(&v, &dummy)
}

// ---------- extraction ----------

/// The harvested phones: each candidate normalized, kept when plausible,
/// first occurrences kept.
pub open spec fn collect_phones(cands: Seq<Seq<char>>, acc: Seq<Seq<char>>) -> Seq<Seq<char>>
    decreases cands.len(),
{
    if cands.len() == 0 {
        acc
    } else {
        let n = normalize_phone_spec(cands[0]);
        let acc2 = if is_valid_phone_spec(n) && !acc.contains(n) {
            acc.push(n)
        } else {
            acc
        };
        collect_phones(cands.drop_first(), acc2)
    }
}

pub open spec fn extract_phones_spec(html: Seq<char>) -> Seq<Seq<char>> {
    collect_phones(phone_candidates(strip_tags_spec(html)), Seq::empty())
}

/// The canonical phone numbers harvested from `html`, duplicate-free, in
/// order of first occurrence.
pub fn extract_phones(html: &str) -> (r: Vec<String>)
    ensures
        string_views(r@) == extract_phones_spec(html@),
        forall|i: int, j: int| 0 <= i < j < r@.len() ==> r@[i]@ != r@[j]@,
        forall|i: int| 0 <= i < r@.len() ==> is_valid_phone_spec(#[trigger] r@[i]@),
{
    let clean: String = strip_html_tags(html);
    let fr: Vec<String> = fr_pattern_matches(clean.as_str());
    let intl: Vec<String> = intl_pattern_matches(clean.as_str());
    let block: Vec<String> = block_pattern_matches(clean.as_str());
    let mut cands: Vec<String> = Vec::new();
    let mut a: usize = 0;
    while a < fr.len()
        invariant
            0 <= a <= fr@.len(),
            string_views(cands@) == string_views(fr@).subrange(0, a as int),
        decreases fr@.len() - a,
    {
        let ghost oldc = cands@;
        let x: String = fr[a].clone();
        let ghost gx: String = x;
        cands.push(x);
        proof {
            assert(cands@ == oldc.push(gx));
            lemma_string_views_push(oldc, gx);
            assert(string_views(fr@)[a as int] == fr@[a as int]@);
            assert(gx@ == fr@[a as int]@);
            assert(string_views(cands@) =~= string_views(fr@).subrange(0, a + 1));
        }
        a += 1;
    }
    let mut b: usize = 0;
    assert(string_views(fr@).subrange(0, fr@.len() as int) =~= string_views(fr@));
    while b < intl.len()
        invariant
            0 <= b <= intl@.len(),
            string_views(cands@) == string_views(fr@) + string_views(intl@).subrange(0, b as int),
        decreases intl@.len() - b,
    {
        let ghost oldc = cands@;
        let x: String = intl[b].clone();
        let ghost gx: String = x;
        cands.push(x);
        proof {
            assert(cands@ == oldc.push(gx));
            lemma_string_views_push(oldc, gx);
            assert(string_views(intl@)[b as int] == intl@[b as int]@);
            assert(gx@ == intl@[b as int]@);
            assert(string_views(cands@) =~= string_views(fr@) + string_views(intl@).subrange(
                0,
                b + 1,
            ));
        }
        b += 1;
    }
    let mut c: usize = 0;
    assert(string_views(intl@).subrange(0, intl@.len() as int) =~= string_views(intl@));
    while c < block.len()
        invariant
            0 <= c <= block@.len(),
            string_views(cands@) == string_views(fr@) + string_views(intl@) + string_views(
                block@,
            ).subrange(0, c as int),
        decreases block@.len() - c,
    {
        let ghost oldc = cands@;
        let x: String = block[c].clone();
        let ghost gx: String = x;
        cands.push(x);
        proof {
            assert(cands@ == oldc.push(gx));
            lemma_string_views_push(oldc, gx);
            assert(string_views(block@)[c as int] == block@[c as int]@);
            assert(gx@ == block@[c as int]@);
            assert(string_views(cands@) =~= string_views(fr@) + string_views(intl@)
                + string_views(block@).subrange(0, c + 1));
        }
        c += 1;
    }
    assert(string_views(block@).subrange(0, block@.len() as int) =~= string_views(block@));
    assert(string_views(cands@) == phone_candidates(clean@));
    let ghost cviews = string_views(cands@);
    let mut out: Vec<String> = Vec::new();
    let mut i: usize = 0;
    assert(cviews.skip(0) =~= cviews);
    assert(string_views(out@) =~= Seq::<Seq<char>>::empty());
    while i < cands.len()
        invariant
            0 <= i <= cands@.len(),
            cviews == string_views(cands@),
            collect_phones(cviews.skip(i as int), string_views(out@)) == collect_phones(
                cviews,
                Seq::empty(),
            ),
            forall|p: int, q: int| 0 <= p < q < out@.len() ==> out@[p]@ != out@[q]@,
            forall|k: int| 0 <= k < out@.len() ==> is_valid_phone_spec(#[trigger] out@[k]@),
        decreases cands@.len() - i,
    {
        let ghost rest = cviews.skip(i as int);
        assert(rest[0] == cands@[i as int]@);
        let norm: String = normalize_phone(cands[i].as_str());
        let ghost oldout = out@;
        if is_valid_phone(norm.as_str()) {
            let mut present: bool = false;
            let mut k: usize = 0;
            while k < out.len()
                invariant
                    0 <= k <= out@.len(),
                    present == exists|t: int| 0 <= t < k && out@[t]@ == norm@,
                decreases out@.len() - k,
            {
                if out[k].eq(&norm) {
                    present = true;
                }
                k += 1;
            }
            proof {
                if present {
                    assert(string_views(out@).contains(norm@)) by {
                        let t = choose|t: int| 0 <= t < out@.len() && out@[t]@ == norm@;
                        assert(string_views(out@)[t] == norm@);
                    };
                } else {
                    if string_views(out@).contains(norm@) {
                        let t = choose|t: int|
                            0 <= t < string_views(out@).len() && string_views(out@)[t] == norm@;
                        assert(out@[t]@ == norm@);
                        assert(false);
                    }
                }
            }
            if !present {
                out.push(norm);
                assert(string_views(out@) =~= string_views(oldout).push(
                    normalize_phone_spec(rest[0]),
                ));
            }
        }
        proof {
            assert(rest.drop_first() =~= cviews.skip(i + 1));
            assert(collect_phones(cviews.skip(i + 1), string_views(out@)) == collect_phones(
                rest,
                string_views(oldout),
            ));
        }
        i += 1;
    }
    assert(cviews.skip(cands@.len() as int) =~= Seq::<Seq<char>>::empty());
    out
}

// ---------- the normalization law ----------

proof fn lemma_filter_all_kept(s: Seq<char>)
    requires
        forall|i: int| 0 <= i < s.len() ==> keep_phone_char(#[trigger] s[i]),
    ensures
        phone_filtered(s) == s,
    decreases s.len(),
{
    reveal(Seq::filter);
    if s.len() > 0 {
        assert(forall|i: int| 0 <= i < s.drop_last().len() ==> s.drop_last()[i] == s[i]);
        lemma_filter_all_kept(s.drop_last());
        assert(keep_phone_char(s.last()));
        assert(phone_filtered(s) =~= s);
    } else {
        assert(phone_filtered(s) =~= s);
    }
}

proof fn lemma_filtered_elements_kept(s: Seq<char>)
    ensures
        forall|i: int|
            0 <= i < phone_filtered(s).len() ==> keep_phone_char(#[trigger] phone_filtered(s)[i]),
    decreases s.len(),
{
    reveal(Seq::filter);
    if s.len() > 0 {
        lemma_filtered_elements_kept(s.drop_last());
    }
}

/// Phone normalization is a fixed point: normalizing a normalized number
/// changes nothing.
pub proof fn lemma_normalize_phone_fixed_point(s: Seq<char>)
    ensures
        normalize_phone_spec(normalize_phone_spec(s)) == normalize_phone_spec(s),
{
    reveal_strlit("0033");
    reveal_strlit("+33");
    let d = phone_filtered(s);
    lemma_filtered_elements_kept(s);
    let r = normalize_phone_spec(s);
    if starts_with(d, "0033"@) || (d.len() >= 1 && d[0] == '0' && !(d.len() >= 2 && d[1]
        == '0')) {
        let tail = if starts_with(d, "0033"@) {
            d.skip(4)
        } else {
            d.skip(1)
        };
        assert(r == "+33"@ + tail);
        assert(r[0] == '+');
        assert forall|i: int| 0 <= i < r.len() implies keep_phone_char(#[trigger] r[i]) by {
            if i < 3 {
                assert(r[i] == "+33"@[i]);
            } else {
                assert(r[i] == tail[i - 3]);
            }
        };
        lemma_filter_all_kept(r);
        assert(phone_filtered(r) == r);
        assert(!occurs_at(r, 0, "0033"@)) by {
            assert(r[0int + 0int] != "0033"@[0int]);
        };
        assert(normalize_phone_spec(r) == r);
    } else {
        assert(r == d);
        lemma_filter_all_kept(r);
        assert(phone_filtered(r) == r);
        assert(normalize_phone_spec(r) == r);
    }
}

} // verus!
