//! Character-sequence utilities: substring search, ASCII lowercasing,
//! lexicographic order, and conversions between `str`/`String` and `Vec<char>`.
use vstd::prelude::*;

verus! {

// ---------- characters ----------

pub open spec fn is_digit_char(c: char) -> bool {
    '0' as u32 <= c as u32 && c as u32 <= '9' as u32
}

pub open spec fn lower_char(c: char) -> char {
    if 'A' as u32 <= c as u32 && c as u32 <= 'Z' as u32 {
        ((c as u32 + 32) as u32) as char
    } else {
        c
    }
}

pub open spec fn to_lower(s: Seq<char>) -> Seq<char> {
    s.map_values(|c: char| lower_char(c))
}

pub fn is_digit_char_exec(c: char) -> (r: bool)
    ensures
        r == is_digit_char(c),
{
    let u: u32 = c as u32;
    48 <= u && u <= 57
}

pub fn lower_char_exec(c: char) -> (r: char)
    ensures
        r == lower_char(c),
{
    let u: u32 = c as u32;
    if 65 <= u && u <= 90 {
        ((u + 32) as u8) as char
    } else {
        c
    }
}

// ---------- substring search ----------

/// `pat` occurs in `s` at position `i`.
pub open spec fn occurs_at(s: Seq<char>, i: int, pat: Seq<char>) -> bool {
    &&& 0 <= i
    &&& i + pat.len() <= s.len()
    &&& forall|j: int| 0 <= j < pat.len() ==> s[i + j] == pat[j]
}

/// `pat` occurs somewhere in `s`.
pub open spec fn contains_seq(s: Seq<char>, pat: Seq<char>) -> bool {
    exists|i: int| occurs_at(s, i, pat)
}

pub open spec fn starts_with(s: Seq<char>, pat: Seq<char>) -> bool {
    occurs_at(s, 0, pat)
}

pub open spec fn ends_with(s: Seq<char>, pat: Seq<char>) -> bool {
    s.len() >= pat.len() && occurs_at(s, s.len() - pat.len(), pat)
}

/// A match of `pat` inside `s` survives appending more text on the right.
pub proof fn lemma_contains_append_right(s: Seq<char>, t: Seq<char>, pat: Seq<char>)
    requires
        contains_seq(s, pat),
    ensures
        contains_seq(s + t, pat),
{
    let i = choose|i: int| occurs_at(s, i, pat);
    assert(occurs_at(s + t, i, pat));
}

/// A match at a fixed position survives appending more text on the right.
pub proof fn lemma_occurs_append_right(s: Seq<char>, t: Seq<char>, i: int, pat: Seq<char>)
    requires
        occurs_at(s, i, pat),
    ensures
        occurs_at(s + t, i, pat),
{
    assert(forall|j: int| 0 <= j < pat.len() ==> (s + t)[i + j] == #[trigger] pat[j]);
}

/// A match of `pat` inside the appended text `t` is a match inside `s + t`.
pub proof fn lemma_contains_append_left(s: Seq<char>, t: Seq<char>, pat: Seq<char>)
    requires
        contains_seq(t, pat),
    ensures
        contains_seq(s + t, pat),
{
    let i = choose|i: int| occurs_at(t, i, pat);
    assert(occurs_at(s + t, s.len() + i, pat)) by {
        assert(forall|j: int| 0 <= j < pat.len() ==> (s + t)[s.len() + i + j] == #[trigger] pat[j]);
    }
}

pub fn matches_at(hay: &Vec<char>, i: usize, pat: &Vec<char>) -> (r: bool)
    requires
        i + pat@.len() <= hay@.len(),
    ensures
        r == occurs_at(hay@, i as int, pat@),
{
    let n: usize = hay.len();
    let m: usize = pat.len();
    let mut j: usize = 0;
    while j < m
        invariant
            0 <= j <= m,
            m == pat@.len(),
            n == hay@.len(),
            i + m <= n,
            forall|t: int| 0 <= t < j ==> hay@[i + t] == pat@[t],
        decreases m - j,
    {
        if hay[i + j] != pat[j] {
            return false;
        }
        j += 1;
    }
    true
}

/// The position of the first occurrence of `pat` in `hay`, if any.
pub fn find_sub(hay: &Vec<char>, pat: &Vec<char>) -> (r: Option<usize>)
    ensures
        r is Some <==> contains_seq(hay@, pat@),
        r matches Some(i) ==> occurs_at(hay@, i as int, pat@) && forall|k: int|
            0 <= k < i ==> !occurs_at(hay@, k, pat@),
{
    if pat.len() > hay.len() {
        assert(forall|i: int| !occurs_at(hay@, i, pat@));
        return None;
    }
    if pat.len() == 0 {
        assert(occurs_at(hay@, 0, pat@));
        return Some(0);
    }
    let n: usize = hay.len();
    let bound: usize = n - pat.len();
    let mut i: usize = 0;
    loop
        invariant
            0 <= i <= bound + 1,
            n == hay@.len(),
            pat@.len() >= 1,
            bound == hay@.len() - pat@.len(),
            forall|k: int| 0 <= k < i ==> !occurs_at(hay@, k, pat@),
        decreases bound + 1 - i,
    {
        if i > bound {
            assert(forall|k: int| !occurs_at(hay@, k, pat@));
            return None;
        }
        if matches_at(hay, i, pat) {
            return Some(i);
        }
        i += 1;
    }
}

pub fn contains_sub(hay: &Vec<char>, pat: &Vec<char>) -> (r: bool)
    ensures
        r == contains_seq(hay@, pat@),
{
    match find_sub(hay, pat) {
        Some(_) => true,
        None => false,
    }
}

pub fn starts_with_exec(s: &Vec<char>, pat: &Vec<char>) -> (r: bool)
    ensures
        r == starts_with(s@, pat@),
{
    if pat.len() > s.len() {
        return false;
    }
    matches_at(s, 0, pat)
}

pub fn ends_with_exec(s: &Vec<char>, pat: &Vec<char>) -> (r: bool)
    ensures
        r == ends_with(s@, pat@),
{
    if pat.len() > s.len() {
        return false;
    }
    matches_at(s, s.len() - pat.len(), pat)
}

// ---------- lexicographic order on character sequences ----------

/// Strict lexicographic order by code point; agrees with the order std gives
/// `String` (UTF-8 byte order preserves code-point order).
pub open spec fn lex_lt(a: Seq<char>, b: Seq<char>) -> bool
    decreases a.len(),
{
    if b.len() == 0 {
        false
    } else if a.len() == 0 {
        true
    } else if (a[0] as u32) < (b[0] as u32) {
        true
    } else if a[0] == b[0] {
        lex_lt(a.drop_first(), b.drop_first())
    } else {
        false
    }
}

pub proof fn lemma_lex_irrefl(a: Seq<char>)
    ensures
        !lex_lt(a, a),
    decreases a.len(),
{
    if a.len() > 0 {
        lemma_lex_irrefl(a.drop_first());
    }
}

/// Distinct `char`s have distinct code points.
proof fn lemma_char_injective(x: char, y: char)
    requires
        x as u32 == y as u32,
    ensures
        x == y,
{
    vstd::utf8::char_u32_cast(x, x as u32);
    vstd::utf8::char_u32_cast(y, y as u32);
}

pub proof fn lemma_lex_connected(a: Seq<char>, b: Seq<char>)
    ensures
        lex_lt(a, b) || lex_lt(b, a) || a == b,
    decreases a.len(),
{
    if a.len() == 0 {
        if b.len() == 0 {
            assert(a =~= b);
        }
    } else if b.len() == 0 {
    } else if a[0] == b[0] {
        lemma_lex_connected(a.drop_first(), b.drop_first());
        if !lex_lt(a, b) && !lex_lt(b, a) {
            assert(a.drop_first() =~= b.drop_first());
            assert(a.len() == b.len());
            assert forall|i: int| 0 <= i < a.len() implies a[i] == b[i] by {
                if i >= 1 {
                    assert(a[i] == a.drop_first()[i - 1]);
                    assert(b[i] == b.drop_first()[i - 1]);
                }
            };
            assert(a =~= b);
        }
    } else {
        if a[0] as u32 == b[0] as u32 {
            lemma_char_injective(a[0], b[0]);
            assert(false);
        }
    }
}

pub proof fn lemma_lex_trans(a: Seq<char>, b: Seq<char>, c: Seq<char>)
    requires
        lex_lt(a, b),
        lex_lt(b, c),
    ensures
        lex_lt(a, c),
    decreases a.len(),
{
    if b.len() == 0 {
    } else if a.len() == 0 {
    } else if c.len() == 0 {
    } else if a[0] == b[0] && b[0] == c[0] {
        lemma_lex_trans(a.drop_first(), b.drop_first(), c.drop_first());
    }
}

/// If `a` and `b` agree on their first `i` characters, the comparison is
/// decided by the remainders.
proof fn lemma_lex_skip(a: Seq<char>, b: Seq<char>, i: int)
    requires
        0 <= i <= a.len(),
        i <= b.len(),
        forall|k: int| 0 <= k < i ==> a[k] == b[k],
    ensures
        lex_lt(a, b) == lex_lt(a.skip(i), b.skip(i)),
    decreases i,
{
    if i == 0 {
        assert(a.skip(0) =~= a);
        assert(b.skip(0) =~= b);
    } else {
        assert(a[0] == b[0]);
        lemma_lex_skip(a.drop_first(), b.drop_first(), i - 1);
        assert(a.drop_first().skip(i - 1) =~= a.skip(i));
        assert(b.drop_first().skip(i - 1) =~= b.skip(i));
    }
}

pub fn lex_lt_exec(a: &Vec<char>, b: &Vec<char>) -> (r: bool)
    ensures
        r == lex_lt(a@, b@),
{
    let alen: usize = a.len();
    let blen: usize = b.len();
    let m: usize = if alen < blen {
        alen
    } else {
        blen
    };
    let mut i: usize = 0;
    while i < m
        invariant
            0 <= i <= m,
            m <= a@.len() && m <= b@.len(),
            alen == a@.len() && blen == b@.len(),
            m == if alen < blen {
                alen as int
            } else {
                blen as int
            },
            forall|k: int| 0 <= k < i ==> a@[k] == b@[k],
        decreases m - i,
    {
        let ca: char = a[i];
        let cb: char = b[i];
        if ca != cb {
            proof {
                lemma_lex_skip(a@, b@, i as int);
            }
            return (ca as u32) < (cb as u32);
        }
        i += 1;
    }
    proof {
        lemma_lex_skip(a@, b@, m as int);
    }
    alen < blen
}

// ---------- sorted, duplicate-free lists of strings ----------

pub open spec fn strictly_sorted_strings(s: Seq<String>) -> bool {
    forall|i: int, j: int| 0 <= i < j < s.len() ==> lex_lt(s[i]@, s[j]@)
}

/// Membership of a character sequence among the views of a string list.
pub open spec fn contains_string(s: Seq<String>, x: Seq<char>) -> bool {
    exists|i: int| 0 <= i < s.len() && s[i]@ == x
}

pub open spec fn string_views(s: Seq<String>) -> Seq<Seq<char>> {
    s.map_values(|x: String| x@)
}

pub proof fn lemma_string_views_push(v: Seq<String>, x: String)
    ensures
        string_views(v.push(x)) == string_views(v).push(x@),
{
    assert(forall|t: int| 0 <= t < v.len() ==> string_views(v.push(x))[t] == v[t]@);
    assert(string_views(v.push(x))[v.len() as int] == x@);
    assert(string_views(v.push(x)) =~= string_views(v).push(x@));
}

fn string_lex_lt(a: &String, b: &String) -> (r: bool)
    ensures
        r == lex_lt(a@, b@),
{
    let va: Vec<char> = chars_of(a.as_str());
    let vb: Vec<char> = chars_of(b.as_str());
    lex_lt_exec(&va, &vb)
}

/// The first position whose element is not below `x`.
fn lower_bound(v: &Vec<String>, x: &String) -> (i: usize)
    ensures
        0 <= i <= v@.len(),
        forall|k: int| 0 <= k < i ==> lex_lt(v@[k]@, x@),
        i < v@.len() ==> !lex_lt(v@[i as int]@, x@),
{
    let n: usize = v.len();
    let mut i: usize = 0;
    while i < n
        invariant
            0 <= i <= n,
            n == v@.len(),
            forall|k: int| 0 <= k < i ==> lex_lt(v@[k]@, x@),
        decreases n - i,
    {
        if !string_lex_lt(&v[i], x) {
            return i;
        }
        i += 1;
    }
    i
}

/// Insert `x` into a strictly sorted list, keeping it sorted and
/// duplicate-free; a string whose view is already present is dropped.
pub fn sorted_insert_unique(v: &mut Vec<String>, x: String)
    requires
        strictly_sorted_strings(old(v)@),
    ensures
        strictly_sorted_strings(final(v)@),
        forall|e: Seq<char>|
            contains_string(final(v)@, e) <==> (contains_string(old(v)@, e) || e == x@),
{
    let n: usize = v.len();
    let i: usize = lower_bound(v, &x);
    if i < n {
        let same: bool = v[i].eq(&x);
        if same {
            assert(contains_string(v@, x@));
            return;
        }
        proof {
            lemma_lex_connected(v@[i as int]@, x@);
        }
        assert(lex_lt(x@, v@[i as int]@));
    }
    let ghost oldv = v@;
    proof {
        oldv.insert_ensures(i as int, x);
    }
    v.insert(i, x);
    assert(v@.len() == oldv.len() + 1);
    assert(forall|k: int| 0 <= k < i ==> v@[k] == oldv[k]);
    assert(forall|k: int| i <= k < oldv.len() ==> v@[k + 1] == oldv[k]);
    assert(v@[i as int] == x);
    assert forall|p: int, q: int| 0 <= p < q < v@.len() implies lex_lt(v@[p]@, v@[q]@) by {
        if q < i {
        } else if p < i && q == i {
        } else if p == i && q > i {
            assert(v@[q]@ == oldv[q - 1]@);
            if q > i + 1 {
                lemma_lex_trans(x@, oldv[i as int]@, oldv[q - 1]@);
            }
        } else if p < i && q > i {
            if q == i + 1 {
                lemma_lex_trans(oldv[p]@, x@, v@[q]@);
            }
        } else {
            assert(lex_lt(oldv[p - 1]@, oldv[q - 1]@));
        }
    };
    assert forall|e: Seq<char>|
        contains_string(v@, e) <==> (contains_string(oldv, e) || e == x@) by {
        if contains_string(oldv, e) {
            let k = choose|k: int| 0 <= k < oldv.len() && oldv[k]@ == e;
            if k < i {
                assert(v@[k]@ == e);
            } else {
                assert(v@[k + 1]@ == e);
            }
        }
        if e == x@ {
            assert(v@[i as int]@ == e);
        }
        if contains_string(v@, e) {
            let k = choose|k: int| 0 <= k < v@.len() && v@[k]@ == e;
            if k < i {
                assert(oldv[k]@ == e);
            } else if k == i {
            } else {
                assert(oldv[k - 1]@ == e);
            }
        }
    };
}

/// The sorted, duplicate-free union of the views of `a` and `b`, leaving out
/// `excl` when it is given.
pub fn sorted_union_excluding(a: &Vec<String>, b: &Vec<String>, excl: Option<&String>) -> (r: Vec<
    String,
>)
    ensures
        strictly_sorted_strings(r@),
        forall|e: Seq<char>|
            contains_string(r@, e) <==> ((contains_string(a@, e) || contains_string(b@, e))
                && match excl {
                Some(p) => e != p@,
                None => true,
            }),
{
    let mut r: Vec<String> = Vec::new();
    assert(forall|e: Seq<char>| !contains_string(r@, e));
    let mut i: usize = 0;
    while i < a.len()
        invariant
            0 <= i <= a@.len(),
            strictly_sorted_strings(r@),
            forall|e: Seq<char>|
                contains_string(r@, e) <==> (contains_string(a@.subrange(0, i as int), e)
                    && match excl {
                    Some(p) => e != p@,
                    None => true,
                }),
        decreases a@.len() - i,
    {
        let keep: bool = match excl {
            Some(p) => !a[i].eq(p),
            None => true,
        };
        let ghost prefix = a@.subrange(0, i as int);
        let ghost oldr = r@;
        if keep {
            sorted_insert_unique(&mut r, a[i].clone());
        }
        assert forall|e: Seq<char>|
            contains_string(r@, e) <==> (contains_string(a@.subrange(0, i + 1), e)
                && match excl {
                Some(p) => e != p@,
                None => true,
            }) by {
            assert(contains_string(a@.subrange(0, i + 1), e) <==> (contains_string(prefix, e) || e
                == a@[i as int]@)) by {
                if contains_string(a@.subrange(0, i + 1), e) {
                    let k = choose|k: int|
                        0 <= k < i + 1 && #[trigger] a@.subrange(0, i + 1)[k]@ == e;
                    if k < i {
                        assert(prefix[k]@ == e);
                    }
                }
                if contains_string(prefix, e) {
                    let k = choose|k: int| 0 <= k < i && prefix[k]@ == e;
                    assert(a@.subrange(0, i + 1)[k]@ == e);
                }
                if e == a@[i as int]@ {
                    assert(a@.subrange(0, i + 1)[i as int]@ == e);
                }
            };
            if keep {
                assert(contains_string(r@, e) <==> (contains_string(oldr, e) || e
                    == a@[i as int]@));
            } else {
                assert(r@ == oldr);
            }
        };
        i += 1;
    }
    assert(a@.subrange(0, a@.len() as int) =~= a@);
    let mut j: usize = 0;
    while j < b.len()
        invariant
            0 <= j <= b@.len(),
            strictly_sorted_strings(r@),
            forall|e: Seq<char>|
                contains_string(r@, e) <==> ((contains_string(a@, e) || contains_string(
                    b@.subrange(0, j as int),
                    e,
                )) && match excl {
                    Some(p) => e != p@,
                    None => true,
                }),
        decreases b@.len() - j,
    {
        let keep: bool = match excl {
            Some(p) => !b[j].eq(p),
            None => true,
        };
        let ghost prefix = b@.subrange(0, j as int);
        let ghost oldr = r@;
        if keep {
            sorted_insert_unique(&mut r, b[j].clone());
        }
        assert forall|e: Seq<char>|
            contains_string(r@, e) <==> ((contains_string(a@, e) || contains_string(
                b@.subrange(0, j + 1),
                e,
            )) && match excl {
                Some(p) => e != p@,
                None => true,
            }) by {
            assert(contains_string(b@.subrange(0, j + 1), e) <==> (contains_string(prefix, e) || e
                == b@[j as int]@)) by {
                if contains_string(b@.subrange(0, j + 1), e) {
                    let k = choose|k: int|
                        0 <= k < j + 1 && #[trigger] b@.subrange(0, j + 1)[k]@ == e;
                    if k < j {
                        assert(prefix[k]@ == e);
                    }
                }
                if contains_string(prefix, e) {
                    let k = choose|k: int| 0 <= k < j && prefix[k]@ == e;
                    assert(b@.subrange(0, j + 1)[k]@ == e);
                }
                if e == b@[j as int]@ {
                    assert(b@.subrange(0, j + 1)[j as int]@ == e);
                }
            };
            if keep {
                assert(contains_string(r@, e) <==> (contains_string(oldr, e) || e
                    == b@[j as int]@));
            } else {
                assert(r@ == oldr);
            }
        };
        j += 1;
    }
    assert(b@.subrange(0, b@.len() as int) =~= b@);
    r
}

/// Two strictly sorted lists whose views hold the same members are the same
/// sequence of views.
pub proof fn lemma_sorted_unique_views_eq(a: Seq<String>, b: Seq<String>)
    requires
        strictly_sorted_strings(a),
        strictly_sorted_strings(b),
        forall|e: Seq<char>| contains_string(a, e) <==> contains_string(b, e),
    ensures
        string_views(a) == string_views(b),
    decreases a.len(),
{
    if a.len() == 0 {
        if b.len() > 0 {
            assert(contains_string(b, b[0]@));
            assert(false);
        }
        assert(string_views(a) =~= string_views(b));
    } else {
        assert(contains_string(b, a[0]@)) by {
            assert(contains_string(a, a[0]@));
        }
        assert(contains_string(a, b[0]@)) by {
            assert(contains_string(b, b[0]@));
        }
        let j = choose|j: int| 0 <= j < b.len() && b[j]@ == a[0]@;
        let k = choose|k: int| 0 <= k < a.len() && a[k]@ == b[0]@;
        if j > 0 && k > 0 {
            assert(lex_lt(b[0]@, b[j]@));
            assert(lex_lt(a[0]@, a[k]@));
            lemma_lex_trans(a[0]@, b[0]@, a[0]@);
            lemma_lex_irrefl(a[0]@);
            assert(false);
        }
        assert(a[0]@ == b[0]@);
        let ta = a.drop_first();
        let tb = b.drop_first();
        assert forall|e: Seq<char>| contains_string(ta, e) <==> contains_string(tb, e) by {
            if contains_string(ta, e) {
                let p = choose|p: int| 0 <= p < ta.len() && ta[p]@ == e;
                assert(a[p + 1]@ == e);
                assert(contains_string(a, e));
                let q = choose|q: int| 0 <= q < b.len() && b[q]@ == e;
                if q == 0 {
                    assert(lex_lt(a[0]@, a[p + 1]@));
                    lemma_lex_irrefl(a[0]@);
                    assert(false);
                }
                assert(tb[q - 1]@ == e);
            }
            if contains_string(tb, e) {
                let p = choose|p: int| 0 <= p < tb.len() && tb[p]@ == e;
                assert(b[p + 1]@ == e);
                assert(contains_string(b, e));
                let q = choose|q: int| 0 <= q < a.len() && a[q]@ == e;
                if q == 0 {
                    assert(lex_lt(b[0]@, b[p + 1]@));
                    lemma_lex_irrefl(b[0]@);
                    assert(false);
                }
                assert(ta[q - 1]@ == e);
            }
        };
        lemma_sorted_unique_views_eq(ta, tb);
        assert(string_views(ta).len() == ta.len());
        assert(string_views(tb).len() == tb.len());
        assert(a.len() == b.len());
        assert forall|i: int| 0 <= i < a.len() implies string_views(a)[i] == string_views(b)[i] by {
            assert(string_views(a)[i] == a[i]@);
            assert(string_views(b)[i] == b[i]@);
            if i > 0 {
                assert(string_views(ta)[i - 1] == ta[i - 1]@);
                assert(string_views(tb)[i - 1] == tb[i - 1]@);
                assert(ta[i - 1]@ == tb[i - 1]@);
                assert(a[i] == ta[i - 1]);
                assert(b[i] == tb[i - 1]);
            }
        };
        assert(string_views(a) =~= string_views(b));
    }
}

// ---------- str / String conversions ----------

/// The characters of `s` as a vector.
pub fn chars_of(s: &str) -> (r: Vec<char>)
    ensures
        r@ == s@,
{
    let n: usize = s.unicode_len();
    let mut r: Vec<char> = Vec::new();
    let mut i: usize = 0;
    while i < n
        invariant
            0 <= i <= n,
            n == s@.len(),
            r@ == s@.subrange(0, i as int),
        decreases n - i,
    {
        let c: char = s.get_char(i);
        r.push(c);
        assert(r@ =~= s@.subrange(0, i + 1 as int));
        i += 1;
    }
    assert(r@ =~= s@);
    r
}

/// Relies on `String::push` from std: appends one character at the end.
#[verifier::external_body]
fn push_char(s: &mut String, c: char)
    ensures
        final(s)@ == old(s)@.push(c),
{
    s.push(c)
}

/// A `String` holding exactly the characters of `v`.
pub fn string_of(v: &Vec<char>) -> (r: String)
    ensures
        r@ == v@,
{
    let mut r: String = String::new();
    let mut i: usize = 0;
    while i < v.len()
        invariant
            0 <= i <= v@.len(),
            r@ == v@.subrange(0, i as int),
        decreases v@.len() - i,
    {
        push_char(&mut r, v[i]);
        assert(r@ =~= v@.subrange(0, i + 1 as int));
        i += 1;
    }
    assert(r@ =~= v@);
    r
}

pub fn to_lower_exec(v: &Vec<char>) -> (r: Vec<char>)
    ensures
        r@ == to_lower(v@),
{
    let mut r: Vec<char> = Vec::new();
    let mut i: usize = 0;
    while i < v.len()
        invariant
            0 <= i <= v@.len(),
            r@ == to_lower(v@.subrange(0, i as int)),
        decreases v@.len() - i,
    {
        r.push(lower_char_exec(v[i]));
        assert(r@ =~= to_lower(v@.subrange(0, i + 1 as int)));
        i += 1;
    }
    assert(r@ =~= to_lower(v@));
    r
}

} // verus!
