//! Pattern-based website fingerprinting. The HTML parse (script elements and
//! generator metas) comes from the `scraper` crate; every pattern of the
//! catalog, the class-attribute and jQuery file-name scans included, is a
//! verified matcher, and so are the catalog walk and the deduplication.
use vstd::prelude::*;
use crate::text::{chars_of, contains_seq, contains_sub, occurs_at, string_views};

verus! {

/// A detection hit; equality of interest is by name and category.
#[derive(Debug, Clone)]
pub struct Technology {
    pub name: String,
    pub category: String,
    pub version: Option<String>,
}

// ---------- what the HTML parser hands over ----------

/// For each `<script>` element of the document, in order: its `src`
/// attribute, or its inner HTML when `src` is absent.
pub uninterp spec fn script_subjects_of(html: Seq<char>) -> Seq<Seq<char>>;

/// Relies on `scraper::Html::parse_document` and `Selector`: one entry per
/// `<script>` element, the `src` attribute or, failing that, the inner HTML.
#[verifier::external_body]
fn script_subjects(html: &str) -> (r: Vec<String>)
    ensures
        string_views(r@) == script_subjects_of(html@),
{
    let doc = scraper::Html::parse_document(html);
    let sel = scraper::Selector::parse("script").unwrap();
    doc.select(&sel)
        .map(|el| match el.value().attr("src") {
            Some(s) => s.to_string(),
            None => el.inner_html(),
        })
        .collect()
}

/// For each `<meta name="generator">` element, in order: its `content`
/// attribute, or the empty string when it has none.
pub uninterp spec fn meta_generators_of(html: Seq<char>) -> Seq<Seq<char>>;

/// Relies on `scraper::Html::parse_document` and `Selector`: the `content`
/// attribute of each generator meta, an absent attribute read as empty.
#[verifier::external_body]
fn meta_generator_contents(html: &str) -> (r: Vec<String>)
    ensures
        string_views(r@) == meta_generators_of(html@),
{
    let doc = scraper::Html::parse_document(html);
    let sel = scraper::Selector::parse("meta[name='generator']").unwrap();
    doc.select(&sel).map(|el| el.value().attr("content").unwrap_or("").to_string()).collect()
}

// ---------- the three patterns answered by the regex crate ----------

// ---------- the class-attribute scan ----------

/// A quote-free stretch runs from the end of a `class="` opener at `a` up to
/// position `b`.
pub open spec fn class_gap_ok(s: Seq<char>, a: int, b: int) -> bool {
    a + 7 <= b && forall|k: int| a + 7 <= k < b ==> s[k] != '"'
}

/// A utility-CSS token starts at `b`: one of the fixed words, or `p-`
/// followed by a digit.
pub open spec fn tailwind_token_at(s: Seq<char>, b: int) -> bool {
    ||| occurs_at(s, b, "flex"@)
    ||| occurs_at(s, b, "grid"@)
    ||| occurs_at(s, b, "mx-auto"@)
    ||| occurs_at(s, b, "text-"@)
    ||| occurs_at(s, b, "bg-"@)
    ||| (occurs_at(s, b, "p-"@) && b + 2 < s.len() && crate::text::is_digit_char(s[b + 2]))
}

/// A Bootstrap grid or button token starts at `b`.
pub open spec fn bootstrap_token_at(s: Seq<char>, b: int) -> bool {
    ||| occurs_at(s, b, "col-md"@)
    ||| occurs_at(s, b, "btn-primary"@)
    ||| occurs_at(s, b, "container-fluid"@)
}

/// A `class="` opener at `a` is followed, before the closing quote, by a
/// utility-CSS token.
pub open spec fn tailwind_hit_at(s: Seq<char>, a: int) -> bool {
    occurs_at(s, a, "class=\""@) && exists|b: int| class_gap_ok(s, a, b) && tailwind_token_at(s, b)
}

pub open spec fn tailwind_class_match(s: Seq<char>) -> bool {
    exists|a: int| tailwind_hit_at(s, a)
}

/// A `class="` opener at `a` is followed, before the closing quote, by a
/// Bootstrap token.
pub open spec fn bootstrap_hit_at(s: Seq<char>, a: int) -> bool {
    occurs_at(s, a, "class=\""@) && exists|b: int| class_gap_ok(s, a, b) && bootstrap_token_at(s, b)
}

pub open spec fn bootstrap_class_match(s: Seq<char>) -> bool {
    exists|a: int| bootstrap_hit_at(s, a)
}

fn occurs_check(hay: &Vec<char>, i: usize, pat: &Vec<char>) -> (r: bool)
    requires
        i <= hay@.len(),
    ensures
        r == occurs_at(hay@, i as int, pat@),
{
    let n: usize = hay.len();
    let m: usize = pat.len();
    if m > n - i {
        return false;
    }
    crate::text::matches_at(hay, i, pat)
}

fn tailwind_token_exec(v: &Vec<char>, j: usize) -> (r: bool)
    requires
        j <= v@.len(),
    ensures
        r == tailwind_token_at(v@, j as int),
{
    let t1: Vec<char> = chars_of("flex");
    let t2: Vec<char> = chars_of("grid");
    let t3: Vec<char> = chars_of("mx-auto");
    let t4: Vec<char> = chars_of("text-");
    let t5: Vec<char> = chars_of("bg-");
    let t6: Vec<char> = chars_of("p-");
    if occurs_check(v, j, &t1) || occurs_check(v, j, &t2) || occurs_check(v, j, &t3)
        || occurs_check(v, j, &t4) || occurs_check(v, j, &t5) {
        return true;
    }
    if occurs_check(v, j, &t6) {
        proof {
            reveal_strlit("p-");
        }
        let n: usize = v.len();
        assert(j + 2 <= n);
        if j + 2 < n {
            return crate::text::is_digit_char_exec(v[j + 2]);
        }
    }
    false
}

fn bootstrap_token_exec(v: &Vec<char>, j: usize) -> (r: bool)
    requires
        j <= v@.len(),
    ensures
        r == bootstrap_token_at(v@, j as int),
{
    let t1: Vec<char> = chars_of("col-md");
    let t2: Vec<char> = chars_of("btn-primary");
    let t3: Vec<char> = chars_of("container-fluid");
    occurs_check(v, j, &t1) || occurs_check(v, j, &t2) || occurs_check(v, j, &t3)
}

fn tailwind_gap_scan(v: &Vec<char>, a: usize) -> (r: bool)
    requires
        a + 7 <= v@.len(),
    ensures
        r == exists|b: int| class_gap_ok(v@, a as int, b) && tailwind_token_at(v@, b),
{
    proof {
        reveal_strlit("flex");
        reveal_strlit("grid");
        reveal_strlit("mx-auto");
        reveal_strlit("text-");
        reveal_strlit("bg-");
        reveal_strlit("p-");
    }
    let n: usize = v.len();
    let mut j: usize = a + 7;
    loop
        invariant
            a + 7 <= j <= n,
            n == v@.len(),
            "flex"@.len() == 4 && "grid"@.len() == 4 && "mx-auto"@.len() == 7 && "text-"@.len()
                == 5 && "bg-"@.len() == 3 && "p-"@.len() == 2,
            forall|b: int| a + 7 <= b < j ==> !tailwind_token_at(v@, b),
            forall|k: int| a + 7 <= k < j ==> v@[k] != '"',
        decreases n - j,
    {
        if j == n {
            assert forall|b: int| !(class_gap_ok(v@, a as int, b) && tailwind_token_at(v@, b)) by {
                if class_gap_ok(v@, a as int, b) && tailwind_token_at(v@, b) {
                    assert(b < n);
                    assert(false);
                }
            };
            return false;
        }
        if tailwind_token_exec(v, j) {
            assert(class_gap_ok(v@, a as int, j as int) && tailwind_token_at(v@, j as int));
            return true;
        }
        if v[j] == '"' {
            assert forall|b: int| !(class_gap_ok(v@, a as int, b) && tailwind_token_at(v@, b)) by {
                if class_gap_ok(v@, a as int, b) && tailwind_token_at(v@, b) {
                    if b > j {
                        assert(v@[j as int] != '"');
                    }
                    assert(false);
                }
            };
            return false;
        }
        j += 1;
    }
}

fn bootstrap_gap_scan(v: &Vec<char>, a: usize) -> (r: bool)
    requires
        a + 7 <= v@.len(),
    ensures
        r == exists|b: int| class_gap_ok(v@, a as int, b) && bootstrap_token_at(v@, b),
{
    proof {
        reveal_strlit("col-md");
        reveal_strlit("btn-primary");
        reveal_strlit("container-fluid");
    }
    let n: usize = v.len();
    let mut j: usize = a + 7;
    loop
        invariant
            a + 7 <= j <= n,
            n == v@.len(),
            "col-md"@.len() == 6 && "btn-primary"@.len() == 11 && "container-fluid"@.len() == 15,
            forall|b: int| a + 7 <= b < j ==> !bootstrap_token_at(v@, b),
            forall|k: int| a + 7 <= k < j ==> v@[k] != '"',
        decreases n - j,
    {
        if j == n {
            assert forall|b: int| !(class_gap_ok(v@, a as int, b) && bootstrap_token_at(v@, b)) by {
                if class_gap_ok(v@, a as int, b) && bootstrap_token_at(v@, b) {
                    assert(b < n);
                    assert(false);
                }
            };
            return false;
        }
        if bootstrap_token_exec(v, j) {
            assert(class_gap_ok(v@, a as int, j as int) && bootstrap_token_at(v@, j as int));
            return true;
        }
        if v[j] == '"' {
            assert forall|b: int| !(class_gap_ok(v@, a as int, b) && bootstrap_token_at(v@, b)) by {
                if class_gap_ok(v@, a as int, b) && bootstrap_token_at(v@, b) {
                    if b > j {
                        assert(v@[j as int] != '"');
                    }
                    assert(false);
                }
            };
            return false;
        }
        j += 1;
    }
}

fn tailwind_class_scan(v: &Vec<char>) -> (r: bool)
    ensures
        r == tailwind_class_match(v@),
{
    proof {
        reveal_strlit("class=\"");
    }
    let needle: Vec<char> = chars_of("class=\"");
    assert(needle@.len() == 7);
    let n: usize = v.len();
    let mut i: usize = 0;
    while i < n
        invariant
            0 <= i <= n,
            n == v@.len(),
            needle@ == "class=\""@,
            needle@.len() == 7,
            forall|a: int| 0 <= a < i ==> !tailwind_hit_at(v@, a),
        decreases n - i,
    {
        if occurs_check(v, i, &needle) {
            if tailwind_gap_scan(v, i) {
                assert(tailwind_hit_at(v@, i as int));
                return true;
            }
        }
        i += 1;
    }
    assert forall|a: int| !tailwind_hit_at(v@, a) by {
        if tailwind_hit_at(v@, a) {
            assert(a + 7 <= n);
            assert(false);
        }
    };
    false
}

fn bootstrap_class_scan(v: &Vec<char>) -> (r: bool)
    ensures
        r == bootstrap_class_match(v@),
{
    proof {
        reveal_strlit("class=\"");
    }
    let needle: Vec<char> = chars_of("class=\"");
    assert(needle@.len() == 7);
    let n: usize = v.len();
    let mut i: usize = 0;
    while i < n
        invariant
            0 <= i <= n,
            n == v@.len(),
            needle@ == "class=\""@,
            needle@.len() == 7,
            forall|a: int| 0 <= a < i ==> !bootstrap_hit_at(v@, a),
        decreases n - i,
    {
        if occurs_check(v, i, &needle) {
            if bootstrap_gap_scan(v, i) {
                assert(bootstrap_hit_at(v@, i as int));
                return true;
            }
        }
        i += 1;
    }
    assert forall|a: int| !bootstrap_hit_at(v@, a) by {
        if bootstrap_hit_at(v@, a) {
            assert(a + 7 <= n);
            assert(false);
        }
    };
    false
}

// ---------- the jQuery file-name scan ----------

/// A non-empty run of digits fills `[from, to)`.
pub open spec fn digits_between(s: Seq<char>, from: int, to: int) -> bool {
    from < to <= s.len() && forall|k: int| from <= k < to ==> crate::text::is_digit_char(s[k])
}

/// After a `-` at `p`: three dot-separated digit groups, then `.js` or
/// `.min.js`.
pub open spec fn jquery_version_split(s: Seq<char>, p: int, q1: int, q2: int, q3: int) -> bool {
    &&& digits_between(s, p + 1, q1) && q1 < s.len() && s[q1] == '.'
    &&& digits_between(s, q1 + 1, q2) && q2 < s.len() && s[q2] == '.'
    &&& digits_between(s, q2 + 1, q3)
    &&& (occurs_at(s, q3, ".js"@) || occurs_at(s, q3, ".min.js"@))
}

/// What may follow the word `jquery` at position `p` in a matching name.
pub open spec fn jquery_tail_at(s: Seq<char>, p: int) -> bool {
    ||| occurs_at(s, p, ".js"@)
    ||| occurs_at(s, p, ".min.js"@)
    ||| (0 <= p < s.len() && s[p] == '-' && exists|q1: int, q2: int, q3: int|
        jquery_version_split(s, p, q1, q2, q3))
}

/// The text names a jQuery bundle: `jquery`, an optional dotted version, an
/// optional `.min`, then `.js`.
pub open spec fn jquery_script_match(s: Seq<char>) -> bool {
    exists|i: int| occurs_at(s, i, "jquery"@) && jquery_tail_at(s, i + 6)
}

/// The first non-digit position at or after `from`.
fn scan_digits(v: &Vec<char>, from: usize) -> (m: usize)
    requires
        from <= v@.len(),
    ensures
        from <= m <= v@.len(),
        forall|k: int| from <= k < m ==> crate::text::is_digit_char(v@[k]),
        m < v@.len() ==> !crate::text::is_digit_char(v@[m as int]),
{
    let n: usize = v.len();
    let mut m: usize = from;
    while m < n
        invariant
            from <= m <= n,
            n == v@.len(),
            forall|k: int| from <= k < m ==> crate::text::is_digit_char(v@[k]),
        decreases n - m,
    {
        if !crate::text::is_digit_char_exec(v[m]) {
            return m;
        }
        m += 1;
    }
    m
}

fn jquery_tail_check(v: &Vec<char>, p: usize) -> (r: bool)
    requires
        p <= v@.len(),
    ensures
        r == jquery_tail_at(v@, p as int),
{
    proof {
        reveal_strlit(".js");
        reveal_strlit(".min.js");
    }
    let js: Vec<char> = chars_of(".js");
    let minjs: Vec<char> = chars_of(".min.js");
    if occurs_check(v, p, &js) || occurs_check(v, p, &minjs) {
        return true;
    }
    let n: usize = v.len();
    if p == n || v[p] != '-' {
        return false;
    }
    let m1: usize = scan_digits(v, p + 1);
    let ok1: bool = m1 > p + 1 && m1 < n && v[m1] == '.';
    if !ok1 {
        assert forall|q1: int, q2: int, q3: int| !jquery_version_split(v@, p as int, q1, q2, q3) by {
            if jquery_version_split(v@, p as int, q1, q2, q3) {
                lemma_digit_run_stops(v@, p + 1, m1 as int, q1);
                assert(false);
            }
        };
        return false;
    }
    let m2: usize = scan_digits(v, m1 + 1);
    let ok2: bool = m2 > m1 + 1 && m2 < n && v[m2] == '.';
    if !ok2 {
        assert forall|q1: int, q2: int, q3: int| !jquery_version_split(v@, p as int, q1, q2, q3) by {
            if jquery_version_split(v@, p as int, q1, q2, q3) {
                lemma_digit_run_stops(v@, p + 1, m1 as int, q1);
                assert(q1 == m1);
                lemma_digit_run_stops(v@, m1 + 1, m2 as int, q2);
                assert(false);
            }
        };
        return false;
    }
    let m3: usize = scan_digits(v, m2 + 1);
    let hit: bool = m3 > m2 + 1 && (occurs_check(v, m3, &js) || occurs_check(v, m3, &minjs));
    proof {
        if hit {
            assert(jquery_version_split(v@, p as int, m1 as int, m2 as int, m3 as int));
        } else {
            assert forall|q1: int, q2: int, q3: int|
                !jquery_version_split(v@, p as int, q1, q2, q3) by {
                if jquery_version_split(v@, p as int, q1, q2, q3) {
                    lemma_digit_run_stops(v@, p + 1, m1 as int, q1);
                    assert(q1 == m1);
                    lemma_digit_run_stops(v@, m1 + 1, m2 as int, q2);
                    assert(q2 == m2);
                    lemma_digit_run_ends(v@, m2 + 1, m3 as int, q3);
                    assert(q3 == m3);
                    assert(false);
                }
            };
        }
    }
    hit
}

/// A dot-terminated digit group can only end where the maximal digit run
/// ends.
proof fn lemma_digit_run_stops(s: Seq<char>, from: int, m: int, q: int)
    requires
        from <= m <= s.len(),
        forall|k: int| from <= k < m ==> crate::text::is_digit_char(s[k]),
        m < s.len() ==> !crate::text::is_digit_char(s[m]),
        digits_between(s, from, q),
        q < s.len(),
        s[q] == '.',
    ensures
        q == m,
        m > from,
        m < s.len(),
{
    if q < m {
        assert(crate::text::is_digit_char(s[q]));
        assert(false);
    }
    if q > m {
        assert(crate::text::is_digit_char(s[m]));
        assert(false);
    }
}

/// A digit group followed by a literal starting with `.` ends where the
/// maximal digit run ends.
proof fn lemma_digit_run_ends(s: Seq<char>, from: int, m: int, q: int)
    requires
        from <= m <= s.len(),
        forall|k: int| from <= k < m ==> crate::text::is_digit_char(s[k]),
        m < s.len() ==> !crate::text::is_digit_char(s[m]),
        digits_between(s, from, q),
        occurs_at(s, q, ".js"@) || occurs_at(s, q, ".min.js"@),
        ".js"@.len() == 3,
        ".min.js"@.len() == 7,
        ".js"@[0] == '.',
        ".min.js"@[0] == '.',
    ensures
        q == m,
        m > from,
{
    assert(q < s.len());
    assert(s[q] == '.') by {
        if occurs_at(s, q, ".js"@) {
            assert(s[q + 0] == ".js"@[0]);
        } else {
            assert(s[q + 0] == ".min.js"@[0]);
        }
    };
    if q < m {
        assert(crate::text::is_digit_char(s[q]));
        assert(false);
    }
    if q > m {
        assert(crate::text::is_digit_char(s[m]));
        assert(false);
    }
}

// ---------- per-technology detection predicates ----------

pub open spec fn any_subject_contains(subjects: Seq<Seq<char>>, pat: Seq<char>) -> bool {
    exists|i: int| 0 <= i < subjects.len() && contains_seq(#[trigger] subjects[i], pat)
}

pub open spec fn react_hit(html: Seq<char>) -> bool {
    ||| any_subject_contains(script_subjects_of(html), "react.development.min.js"@)
    ||| any_subject_contains(script_subjects_of(html), "react.production.min.js"@)
    ||| any_subject_contains(script_subjects_of(html), "react-dom.development.min.js"@)
    ||| any_subject_contains(script_subjects_of(html), "react-dom.production.min.js"@)
    ||| contains_seq(html, "data-react"@)
}

pub open spec fn vue_hit(html: Seq<char>) -> bool {
    ||| any_subject_contains(script_subjects_of(html), "vue.js"@)
    ||| any_subject_contains(script_subjects_of(html), "vue.min.js"@)
    ||| contains_seq(html, "v-bind"@)
    ||| contains_seq(html, "v-if"@)
    ||| contains_seq(html, "v-for"@)
}

pub open spec fn wordpress_hit(html: Seq<char>) -> bool {
    ||| contains_seq(html, "/wp-content/"@)
    ||| contains_seq(html, "/wp-includes/"@)
    ||| any_subject_contains(meta_generators_of(html), "WordPress"@)
}

pub open spec fn nextjs_hit(html: Seq<char>) -> bool {
    contains_seq(html, "__NEXT_DATA__"@) || contains_seq(html, "_next/static"@)
}

pub open spec fn nuxt_hit(html: Seq<char>) -> bool {
    contains_seq(html, "__NUXT__"@) || contains_seq(html, "_nuxt/"@)
}

pub open spec fn angular_hit(html: Seq<char>) -> bool {
    contains_seq(html, "ng-app"@) || contains_seq(html, "ng-controller"@)
}

pub open spec fn svelte_hit(html: Seq<char>) -> bool {
    contains_seq(html, "svelte"@)
}

pub open spec fn tailwind_hit(html: Seq<char>) -> bool {
    tailwind_class_match(html)
}

pub open spec fn bootstrap_hit(html: Seq<char>) -> bool {
    ||| any_subject_contains(script_subjects_of(html), "bootstrap.js"@)
    ||| any_subject_contains(script_subjects_of(html), "bootstrap.min.js"@)
    ||| bootstrap_class_match(html)
}

pub open spec fn jquery_hit(html: Seq<char>) -> bool {
    exists|i: int|
        0 <= i < script_subjects_of(html).len() && jquery_script_match(
            #[trigger] script_subjects_of(html)[i],
        )
}

// ---------- the contract of the detector ----------

pub open spec fn has_tech(ts: Seq<Technology>, n: Seq<char>, c: Seq<char>) -> bool {
    exists|i: int| 0 <= i < ts.len() && (#[trigger] ts[i]).name@ == n && ts[i].category@ == c
}

/// The detected list is right: one entry per detected technology of the
/// catalog, none twice, versions absent.
pub open spec fn detected_ok(ts: Seq<Technology>, html: Seq<char>) -> bool {
    &&& has_tech(ts, "React"@, "Frontend Framework"@) == react_hit(html)
    &&& has_tech(ts, "Vue.js"@, "Frontend Framework"@) == vue_hit(html)
    &&& has_tech(ts, "WordPress"@, "CMS"@) == wordpress_hit(html)
    &&& has_tech(ts, "Next.js"@, "Frontend Framework"@) == nextjs_hit(html)
    &&& has_tech(ts, "Nuxt.js"@, "Frontend Framework"@) == nuxt_hit(html)
    &&& has_tech(ts, "Angular"@, "Frontend Framework"@) == angular_hit(html)
    &&& has_tech(ts, "Svelte"@, "Frontend Framework"@) == svelte_hit(html)
    &&& has_tech(ts, "Tailwind CSS"@, "CSS Framework"@) == tailwind_hit(html)
    &&& has_tech(ts, "Bootstrap"@, "CSS Framework"@) == bootstrap_hit(html)
    &&& has_tech(ts, "jQuery"@, "JS Library"@) == jquery_hit(html)
    &&& forall|i: int| 0 <= i < ts.len() ==> (#[trigger] ts[i]).version is None
    &&& forall|i: int, j: int|
        0 <= i < j < ts.len() ==> !((#[trigger] ts[i]).name@ == (#[trigger] ts[j]).name@)
    &&& forall|i: int|
        0 <= i < ts.len() ==> is_catalog_entry((#[trigger] ts[i]).name@, ts[i].category@, html)
}

/// The pair names a catalog row whose pattern fired on this document.
pub open spec fn is_catalog_entry(n: Seq<char>, c: Seq<char>, html: Seq<char>) -> bool {
    ||| (n == "React"@ && c == "Frontend Framework"@ && react_hit(html))
    ||| (n == "Vue.js"@ && c == "Frontend Framework"@ && vue_hit(html))
    ||| (n == "WordPress"@ && c == "CMS"@ && wordpress_hit(html))
    ||| (n == "Next.js"@ && c == "Frontend Framework"@ && nextjs_hit(html))
    ||| (n == "Nuxt.js"@ && c == "Frontend Framework"@ && nuxt_hit(html))
    ||| (n == "Angular"@ && c == "Frontend Framework"@ && angular_hit(html))
    ||| (n == "Svelte"@ && c == "Frontend Framework"@ && svelte_hit(html))
    ||| (n == "Tailwind CSS"@ && c == "CSS Framework"@ && tailwind_hit(html))
    ||| (n == "Bootstrap"@ && c == "CSS Framework"@ && bootstrap_hit(html))
    ||| (n == "jQuery"@ && c == "JS Library"@ && jquery_hit(html))
}


proof fn lemma_has_tech_push_same(prev: Seq<Technology>, cur: Seq<Technology>, n: Seq<char>, c: Seq<char>)
    requires
        cur.len() == prev.len() + 1,
        forall|i: int| 0 <= i < prev.len() ==> cur[i] == prev[i],
        cur.last().name@ == n,
        cur.last().category@ == c,
    ensures
        has_tech(cur, n, c),
{
    assert(cur[cur.len() - 1].name@ == n);
}

proof fn lemma_has_tech_push_other(prev: Seq<Technology>, cur: Seq<Technology>, n: Seq<char>, c: Seq<char>)
    requires
        cur.len() == prev.len() + 1,
        forall|i: int| 0 <= i < prev.len() ==> cur[i] == prev[i],
        cur.last().name@ != n,
    ensures
        has_tech(cur, n, c) == has_tech(prev, n, c),
{
    if has_tech(prev, n, c) {
        let i = choose|i: int| 0 <= i < prev.len() && (#[trigger] prev[i]).name@ == n && prev[i].category@ == c;
        assert(cur[i].name@ == n && cur[i].category@ == c);
    }
    if has_tech(cur, n, c) {
        let i = choose|i: int| 0 <= i < cur.len() && (#[trigger] cur[i]).name@ == n && cur[i].category@ == c;
        if i < prev.len() {
            assert(prev[i].name@ == n && prev[i].category@ == c);
        }
    }
}

// ---------- executable detection ----------

fn any_subject_contains_exec(subjects: &Vec<String>, pat: &Vec<char>) -> (r: bool)
    ensures
        r == any_subject_contains(string_views(subjects@), pat@),
{
    let n: usize = subjects.len();
    let mut i: usize = 0;
    while i < n
        invariant
            0 <= i <= n,
            n == subjects@.len(),
            forall|k: int|
                0 <= k < i ==> !contains_seq(#[trigger] string_views(subjects@)[k], pat@),
        decreases n - i,
    {
        let sv: Vec<char> = chars_of(subjects[i].as_str());
        assert(sv@ == string_views(subjects@)[i as int]);
        if contains_sub(&sv, pat) {
            return true;
        }
        i += 1;
    }
    false
}

fn jquery_name_scan(v: &Vec<char>) -> (r: bool)
    ensures
        r == jquery_script_match(v@),
{
    proof {
        reveal_strlit("jquery");
    }
    let needle: Vec<char> = chars_of("jquery");
    assert(needle@.len() == 6);
    let n: usize = v.len();
    let mut i: usize = 0;
    while i < n
        invariant
            0 <= i <= n,
            n == v@.len(),
            needle@ == "jquery"@,
            needle@.len() == 6,
            forall|a: int| 0 <= a < i ==> !(occurs_at(v@, a, "jquery"@) && jquery_tail_at(v@, a + 6)),
        decreases n - i,
    {
        if occurs_check(v, i, &needle) {
            if jquery_tail_check(v, i + 6) {
                return true;
            }
        }
        i += 1;
    }
    assert forall|a: int| !(occurs_at(v@, a, "jquery"@) && jquery_tail_at(v@, a + 6)) by {
        if occurs_at(v@, a, "jquery"@) && jquery_tail_at(v@, a + 6) {
            assert(a + 6 <= n);
            assert(false);
        }
    };
    false
}

fn any_subject_jquery(subjects: &Vec<String>) -> (r: bool)
    ensures
        r == exists|i: int|
            0 <= i < string_views(subjects@).len() && jquery_script_match(
                #[trigger] string_views(subjects@)[i],
            ),
{
    let n: usize = subjects.len();
    let mut i: usize = 0;
    while i < n
        invariant
            0 <= i <= n,
            n == subjects@.len(),
            forall|k: int|
                0 <= k < i ==> !jquery_script_match(#[trigger] string_views(subjects@)[k]),
        decreases n - i,
    {
        assert(subjects@[i as int]@ == string_views(subjects@)[i as int]);
        let sv: Vec<char> = chars_of(subjects[i].as_str());
        if jquery_name_scan(&sv) {
            return true;
        }
        i += 1;
    }
    false
}

fn push_tech(r: &mut Vec<Technology>, name: &str, category: &str)
    ensures
        final(r)@.len() == old(r)@.len() + 1,
        final(r)@.last().name@ == name@,
        final(r)@.last().category@ == category@,
        final(r)@.last().version is None,
        forall|i: int| 0 <= i < old(r)@.len() ==> final(r)@[i] == old(r)@[i],
{
    let t: Technology = Technology {
        name: String::from_str(name),
        category: String::from_str(category),
        version: None,
    };
    r.push(t);
}

/// The pair names a catalog row whose flag is set.
pub open spec fn is_flagged_entry(n: Seq<char>, c: Seq<char>, react: bool, vue: bool, wordpress: bool, nextjs: bool, nuxt: bool, angular: bool, svelte: bool, tailwind: bool, bootstrap: bool, jquery: bool) -> bool {
    ||| (n == "React"@ && c == "Frontend Framework"@ && react)
    ||| (n == "Vue.js"@ && c == "Frontend Framework"@ && vue)
    ||| (n == "WordPress"@ && c == "CMS"@ && wordpress)
    ||| (n == "Next.js"@ && c == "Frontend Framework"@ && nextjs)
    ||| (n == "Nuxt.js"@ && c == "Frontend Framework"@ && nuxt)
    ||| (n == "Angular"@ && c == "Frontend Framework"@ && angular)
    ||| (n == "Svelte"@ && c == "Frontend Framework"@ && svelte)
    ||| (n == "Tailwind CSS"@ && c == "CSS Framework"@ && tailwind)
    ||| (n == "Bootstrap"@ && c == "CSS Framework"@ && bootstrap)
    ||| (n == "jQuery"@ && c == "JS Library"@ && jquery)
}

/// `e` restates a flagged row among the first `i` of the catalog.
spec fn from_catalog(e: Technology, cat: Seq<(String, String, bool)>, i: int) -> bool {
    exists|t: int|
        0 <= t < i && e.name@ == (#[trigger] cat[t].0)@ && e.category@ == cat[t].1@ && cat[t].2
}

/// One catalog entry per set flag, in catalog order.
#[verifier::rlimit(100)]
#[verifier::spinoff_prover]
fn build_tech_list(react: bool, vue: bool, wordpress: bool, nextjs: bool, nuxt: bool, angular: bool, svelte: bool, tailwind: bool, bootstrap: bool, jquery: bool) -> (r: Vec<Technology>)
    ensures
        has_tech(r@, "React"@, "Frontend Framework"@) == react,
        has_tech(r@, "Vue.js"@, "Frontend Framework"@) == vue,
        has_tech(r@, "WordPress"@, "CMS"@) == wordpress,
        has_tech(r@, "Next.js"@, "Frontend Framework"@) == nextjs,
        has_tech(r@, "Nuxt.js"@, "Frontend Framework"@) == nuxt,
        has_tech(r@, "Angular"@, "Frontend Framework"@) == angular,
        has_tech(r@, "Svelte"@, "Frontend Framework"@) == svelte,
        has_tech(r@, "Tailwind CSS"@, "CSS Framework"@) == tailwind,
        has_tech(r@, "Bootstrap"@, "CSS Framework"@) == bootstrap,
        has_tech(r@, "jQuery"@, "JS Library"@) == jquery,
        forall|i: int| 0 <= i < r@.len() ==> (#[trigger] r@[i]).version is None,
        forall|i: int, j: int| 0 <= i < j < r@.len() ==> !((#[trigger] r@[i]).name@ == (#[trigger] r@[j]).name@),
        forall|i: int| 0 <= i < r@.len() ==> is_flagged_entry((#[trigger] r@[i]).name@, r@[i].category@, react, vue, wordpress, nextjs, nuxt, angular, svelte, tailwind, bootstrap, jquery),
{
    let mut cat: Vec<(String, String, bool)> = Vec::new();
    cat.push((String::from_str("React"), String::from_str("Frontend Framework"), react));
    cat.push((String::from_str("Vue.js"), String::from_str("Frontend Framework"), vue));
    cat.push((String::from_str("WordPress"), String::from_str("CMS"), wordpress));
    cat.push((String::from_str("Next.js"), String::from_str("Frontend Framework"), nextjs));
    cat.push((String::from_str("Nuxt.js"), String::from_str("Frontend Framework"), nuxt));
    cat.push((String::from_str("Angular"), String::from_str("Frontend Framework"), angular));
    cat.push((String::from_str("Svelte"), String::from_str("Frontend Framework"), svelte));
    cat.push((String::from_str("Tailwind CSS"), String::from_str("CSS Framework"), tailwind));
    cat.push((String::from_str("Bootstrap"), String::from_str("CSS Framework"), bootstrap));
    cat.push((String::from_str("jQuery"), String::from_str("JS Library"), jquery));
    proof {
        reveal_strlit("React");
        reveal_strlit("Vue.js");
        reveal_strlit("WordPress");
        reveal_strlit("Next.js");
        reveal_strlit("Nuxt.js");
        reveal_strlit("Angular");
        reveal_strlit("Svelte");
        reveal_strlit("Tailwind CSS");
        reveal_strlit("Bootstrap");
        reveal_strlit("jQuery");
        assert("React"@.len() == 5);
        assert("React"@[0] == 'R');
        assert("Vue.js"@.len() == 6);
        assert("Vue.js"@[0] == 'V');
        assert("WordPress"@.len() == 9);
        assert("WordPress"@[0] == 'W');
        assert("Next.js"@.len() == 7);
        assert("Next.js"@[0] == 'N');
        assert("Nuxt.js"@.len() == 7);
        assert("Nuxt.js"@[0] == 'N');
        assert("Angular"@.len() == 7);
        assert("Angular"@[0] == 'A');
        assert("Svelte"@.len() == 6);
        assert("Svelte"@[0] == 'S');
        assert("Tailwind CSS"@.len() == 12);
        assert("Tailwind CSS"@[0] == 'T');
        assert("Bootstrap"@.len() == 9);
        assert("Bootstrap"@[0] == 'B');
        assert("jQuery"@.len() == 6);
        assert("jQuery"@[0] == 'j');
        assert("Next.js"@[1] == 'e');
        assert("Nuxt.js"@[1] == 'u');
    }
    assert(cat@.len() == 10);
    assert(cat@[0].0@ == "React"@ && cat@[0].1@ == "Frontend Framework"@ && cat@[0].2 == react);
    assert(cat@[1].0@ == "Vue.js"@ && cat@[1].1@ == "Frontend Framework"@ && cat@[1].2 == vue);
    assert(cat@[2].0@ == "WordPress"@ && cat@[2].1@ == "CMS"@ && cat@[2].2 == wordpress);
    assert(cat@[3].0@ == "Next.js"@ && cat@[3].1@ == "Frontend Framework"@ && cat@[3].2 == nextjs);
    assert(cat@[4].0@ == "Nuxt.js"@ && cat@[4].1@ == "Frontend Framework"@ && cat@[4].2 == nuxt);
    assert(cat@[5].0@ == "Angular"@ && cat@[5].1@ == "Frontend Framework"@ && cat@[5].2 == angular);
    assert(cat@[6].0@ == "Svelte"@ && cat@[6].1@ == "Frontend Framework"@ && cat@[6].2 == svelte);
    assert(cat@[7].0@ == "Tailwind CSS"@ && cat@[7].1@ == "CSS Framework"@ && cat@[7].2 == tailwind);
    assert(cat@[8].0@ == "Bootstrap"@ && cat@[8].1@ == "CSS Framework"@ && cat@[8].2 == bootstrap);
    assert(cat@[9].0@ == "jQuery"@ && cat@[9].1@ == "JS Library"@ && cat@[9].2 == jquery);
    assert(forall|a: int, b: int| 0 <= a < b < cat@.len() ==> (#[trigger] cat@[a].0)@ != (#[trigger] cat@[b].0)@);
    let n: usize = cat.len();
    let mut r: Vec<Technology> = Vec::new();
    let mut i: usize = 0;
    while i < n
        invariant
            0 <= i <= n,
            n == cat@.len(),
            forall|a: int, b: int| 0 <= a < b < cat@.len() ==> (#[trigger] cat@[a].0)@ != (#[trigger] cat@[b].0)@,
            forall|t: int|
                0 <= t < cat@.len() ==> has_tech(r@, (#[trigger] cat@[t].0)@, cat@[t].1@) == (t < i && cat@[t].2),
            forall|p: int| 0 <= p < r@.len() ==> from_catalog(#[trigger] r@[p], cat@, i as int),
            forall|p: int| 0 <= p < r@.len() ==> (#[trigger] r@[p]).version is None,
            forall|p: int, q: int| 0 <= p < q < r@.len() ==> !((#[trigger] r@[p]).name@ == (#[trigger] r@[q]).name@),
        decreases n - i,
    {
        let ghost prev = r@;
        let flagged: bool = cat[i].2;
        if flagged {
            let nm: &String = &cat[i].0;
            let cg: &String = &cat[i].1;
            push_tech(&mut r, nm.as_str(), cg.as_str());
        }
        proof {
            if flagged {
                assert forall|t: int|
                    0 <= t < cat@.len() implies has_tech(r@, (#[trigger] cat@[t].0)@, cat@[t].1@) == (t < i + 1
                    && cat@[t].2) by {
                    if t == i {
                        lemma_has_tech_push_same(prev, r@, cat@[t].0@, cat@[t].1@);
                    } else {
                        lemma_has_tech_push_other(prev, r@, cat@[t].0@, cat@[t].1@);
                    }
                };
                assert forall|p: int|
                    0 <= p < r@.len() implies from_catalog(#[trigger] r@[p], cat@, i + 1) by {
                    if p < prev.len() {
                        assert(r@[p] == prev[p]);
                        assert(from_catalog(prev[p], cat@, i as int));
                        let t = choose|t: int|
                            0 <= t < i && prev[p].name@ == (#[trigger] cat@[t].0)@ && prev[p].category@
                            == cat@[t].1@ && cat@[t].2;
                        assert(r@[p].name@ == (cat@[t].0)@ && r@[p].category@ == cat@[t].1@
                        && cat@[t].2);
                    } else {
                        assert(r@[p].name@ == (cat@[i as int].0)@ && r@[p].category@ == cat@[i as int].1@
                        && cat@[i as int].2);
                    }
                };
                assert forall|p: int, q: int|
                    0 <= p < q < r@.len() implies !((#[trigger] r@[p]).name@ == (#[trigger] r@[q]).name@) by {
                    if q == r@.len() - 1 {
                        assert(from_catalog(r@[p], cat@, i as int));
                        let t = choose|t: int|
                            0 <= t < i && r@[p].name@ == (#[trigger] cat@[t].0)@ && r@[p].category@
                            == cat@[t].1@ && cat@[t].2;
                        assert(cat@[t].0@ != cat@[i as int].0@);
                    }
                };
            } else {
                assert(r@ == prev);
                assert forall|t: int|
                    0 <= t < cat@.len() implies has_tech(r@, (#[trigger] cat@[t].0)@, cat@[t].1@) == (t < i + 1
                    && cat@[t].2) by {
                    if t == i {
                        assert(!cat@[t].2);
                    }
                };
                assert forall|p: int|
                    0 <= p < r@.len() implies from_catalog(#[trigger] r@[p], cat@, i + 1) by {
                    assert(from_catalog(r@[p], cat@, i as int));
                    let t = choose|t: int|
                        0 <= t < i && r@[p].name@ == (#[trigger] cat@[t].0)@ && r@[p].category@
                        == cat@[t].1@ && cat@[t].2;
                    assert(r@[p].name@ == (cat@[t].0)@ && r@[p].category@ == cat@[t].1@ && cat@[t].2);
                };
            }
        }
        i += 1;
    }
    assert(has_tech(r@, "React"@, "Frontend Framework"@) == react) by {
        assert(has_tech(r@, (cat@[0].0)@, cat@[0].1@) == (0 < 10 && cat@[0].2));
    };
    assert(has_tech(r@, "Vue.js"@, "Frontend Framework"@) == vue) by {
        assert(has_tech(r@, (cat@[1].0)@, cat@[1].1@) == (1 < 10 && cat@[1].2));
    };
    assert(has_tech(r@, "WordPress"@, "CMS"@) == wordpress) by {
        assert(has_tech(r@, (cat@[2].0)@, cat@[2].1@) == (2 < 10 && cat@[2].2));
    };
    assert(has_tech(r@, "Next.js"@, "Frontend Framework"@) == nextjs) by {
        assert(has_tech(r@, (cat@[3].0)@, cat@[3].1@) == (3 < 10 && cat@[3].2));
    };
    assert(has_tech(r@, "Nuxt.js"@, "Frontend Framework"@) == nuxt) by {
        assert(has_tech(r@, (cat@[4].0)@, cat@[4].1@) == (4 < 10 && cat@[4].2));
    };
    assert(has_tech(r@, "Angular"@, "Frontend Framework"@) == angular) by {
        assert(has_tech(r@, (cat@[5].0)@, cat@[5].1@) == (5 < 10 && cat@[5].2));
    };
    assert(has_tech(r@, "Svelte"@, "Frontend Framework"@) == svelte) by {
        assert(has_tech(r@, (cat@[6].0)@, cat@[6].1@) == (6 < 10 && cat@[6].2));
    };
    assert(has_tech(r@, "Tailwind CSS"@, "CSS Framework"@) == tailwind) by {
        assert(has_tech(r@, (cat@[7].0)@, cat@[7].1@) == (7 < 10 && cat@[7].2));
    };
    assert(has_tech(r@, "Bootstrap"@, "CSS Framework"@) == bootstrap) by {
        assert(has_tech(r@, (cat@[8].0)@, cat@[8].1@) == (8 < 10 && cat@[8].2));
    };
    assert(has_tech(r@, "jQuery"@, "JS Library"@) == jquery) by {
        assert(has_tech(r@, (cat@[9].0)@, cat@[9].1@) == (9 < 10 && cat@[9].2));
    };
    assert forall|p: int| 0 <= p < r@.len() implies is_flagged_entry((#[trigger] r@[p]).name@, r@[p].category@, react, vue, wordpress, nextjs, nuxt, angular, svelte, tailwind, bootstrap, jquery) by {
        assert(from_catalog(r@[p], cat@, 10));
        let t = choose|t: int| 0 <= t < 10 && r@[p].name@ == (#[trigger] cat@[t].0)@ && r@[p].category@ == cat@[t].1@ && cat@[t].2;
        if t == 0 { } else if t == 1 { } else if t == 2 { } else if t == 3 { } else if t == 4 { } else if t == 5 { } else if t == 6 { } else if t == 7 { } else if t == 8 { } else { assert(t == 9); }
    };
    r
}

/// Walk the catalog over one document.
pub fn detect_technologies(html: &str) -> (r: Vec<Technology>)
    ensures
        detected_ok(r@, html@),
{
    let subjects: Vec<String> = script_subjects(html);
    let gens: Vec<String> = meta_generator_contents(html);
    let h: Vec<char> = chars_of(html);
    let p_react_1: Vec<char> = chars_of("react.development.min.js");
    let p_react_2: Vec<char> = chars_of("react.production.min.js");
    let p_react_3: Vec<char> = chars_of("react-dom.development.min.js");
    let p_react_4: Vec<char> = chars_of("react-dom.production.min.js");
    let p_react_5: Vec<char> = chars_of("data-react");
    let react: bool = any_subject_contains_exec(&subjects, &p_react_1) || any_subject_contains_exec(&subjects, &p_react_2) || any_subject_contains_exec(&subjects, &p_react_3) || any_subject_contains_exec(&subjects, &p_react_4) || contains_sub(&h, &p_react_5);
    assert(react == react_hit(html@));
    let p_vue_1: Vec<char> = chars_of("vue.js");
    let p_vue_2: Vec<char> = chars_of("vue.min.js");
    let p_vue_3: Vec<char> = chars_of("v-bind");
    let p_vue_4: Vec<char> = chars_of("v-if");
    let p_vue_5: Vec<char> = chars_of("v-for");
    let vue: bool = any_subject_contains_exec(&subjects, &p_vue_1) || any_subject_contains_exec(&subjects, &p_vue_2) || contains_sub(&h, &p_vue_3) || contains_sub(&h, &p_vue_4) || contains_sub(&h, &p_vue_5);
    assert(vue == vue_hit(html@));
    let p_wp_1: Vec<char> = chars_of("/wp-content/");
    let p_wp_2: Vec<char> = chars_of("/wp-includes/");
    let p_wp_3: Vec<char> = chars_of("WordPress");
    let wordpress: bool = contains_sub(&h, &p_wp_1) || contains_sub(&h, &p_wp_2) || any_subject_contains_exec(&gens, &p_wp_3);
    assert(wordpress == wordpress_hit(html@));
    let p_next_1: Vec<char> = chars_of("__NEXT_DATA__");
    let p_next_2: Vec<char> = chars_of("_next/static");
    let nextjs: bool = contains_sub(&h, &p_next_1) || contains_sub(&h, &p_next_2);
    assert(nextjs == nextjs_hit(html@));
    let p_nuxt_1: Vec<char> = chars_of("__NUXT__");
    let p_nuxt_2: Vec<char> = chars_of("_nuxt/");
    let nuxt: bool = contains_sub(&h, &p_nuxt_1) || contains_sub(&h, &p_nuxt_2);
    assert(nuxt == nuxt_hit(html@));
    let p_ng_1: Vec<char> = chars_of("ng-app");
    let p_ng_2: Vec<char> = chars_of("ng-controller");
    let angular: bool = contains_sub(&h, &p_ng_1) || contains_sub(&h, &p_ng_2);
    assert(angular == angular_hit(html@));
    let p_sv: Vec<char> = chars_of("svelte");
    let svelte: bool = contains_sub(&h, &p_sv);
    assert(svelte == svelte_hit(html@));
    let tailwind: bool = tailwind_class_scan(&h);
    assert(tailwind == tailwind_hit(html@));
    let p_bs_1: Vec<char> = chars_of("bootstrap.js");
    let p_bs_2: Vec<char> = chars_of("bootstrap.min.js");
    let bootstrap: bool = any_subject_contains_exec(&subjects, &p_bs_1) || any_subject_contains_exec(&subjects, &p_bs_2) || bootstrap_class_scan(&h);
    assert(bootstrap == bootstrap_hit(html@));
    let jquery: bool = any_subject_jquery(&subjects);
    assert(jquery == jquery_hit(html@));
    let r: Vec<Technology> = build_tech_list(react, vue, wordpress, nextjs, nuxt, angular, svelte, tailwind, bootstrap, jquery);
    proof {
        assert forall|i: int| 0 <= i < r@.len() implies is_catalog_entry((#[trigger] r@[i]).name@, r@[i].category@, html@) by {
            assert(is_flagged_entry(r@[i].name@, r@[i].category@, react, vue, wordpress, nextjs, nuxt, angular, svelte, tailwind, bootstrap, jquery));
        };
    }
    r
}

/// Whether the audit lists a modern frontend framework.
pub open spec fn has_modern_tech_spec(ts: Seq<Technology>) -> bool {
    exists|i: int|
        0 <= i < ts.len() && ((#[trigger] ts[i]).name@ == "React"@ || ts[i].name@ == "Vue.js"@
            || ts[i].name@ == "Next.js"@ || ts[i].name@ == "Nuxt.js"@ || ts[i].name@
            == "Svelte"@)
}

pub fn has_modern_technology(technologies: &Vec<Technology>) -> (r: bool)
    ensures
        r == has_modern_tech_spec(technologies@),
{
    let m1: String = String::from_str("React");
    let m2: String = String::from_str("Vue.js");
    let m3: String = String::from_str("Next.js");
    let m4: String = String::from_str("Nuxt.js");
    let m5: String = String::from_str("Svelte");
    let n: usize = technologies.len();
    let mut i: usize = 0;
    while i < n
        invariant
            0 <= i <= n,
            n == technologies@.len(),
            m1@ == "React"@ && m2@ == "Vue.js"@ && m3@ == "Next.js"@ && m4@ == "Nuxt.js"@ && m5@
                == "Svelte"@,
            forall|k: int|
                0 <= k < i ==> !((#[trigger] technologies@[k]).name@ == "React"@
                    || technologies@[k].name@ == "Vue.js"@ || technologies@[k].name@ == "Next.js"@
                    || technologies@[k].name@ == "Nuxt.js"@ || technologies@[k].name@
                    == "Svelte"@),
        decreases n - i,
    {
        if technologies[i].name.eq(&m1) || technologies[i].name.eq(&m2) || technologies[i].name.eq(
            &m3,
        ) || technologies[i].name.eq(&m4) || technologies[i].name.eq(&m5) {
            return true;
        }
        i += 1;
    }
    false
}

// ---------- monotonicity of the raw-HTML patterns ----------

/// Appending text never removes a raw-HTML pattern hit, and a fragment that
/// carries such a pattern makes the technology detected in the extended
/// document. Script and generator patterns go through the HTML parser, of
/// which no such law is stated.
pub proof fn lemma_html_patterns_monotone(h: Seq<char>, frag: Seq<char>)
    ensures
        nextjs_hit(h) ==> nextjs_hit(h + frag),
        nuxt_hit(h) ==> nuxt_hit(h + frag),
        angular_hit(h) ==> angular_hit(h + frag),
        svelte_hit(h) ==> svelte_hit(h + frag),
        contains_seq(h, "data-react"@) ==> react_hit(h + frag),
        contains_seq(h, "/wp-content/"@) || contains_seq(h, "/wp-includes/"@) ==> wordpress_hit(
            h + frag,
        ),
        tailwind_hit(h) ==> tailwind_hit(h + frag),
        bootstrap_class_match(h) ==> bootstrap_hit(h + frag),
        nextjs_hit(frag) ==> nextjs_hit(h + frag),
        nuxt_hit(frag) ==> nuxt_hit(h + frag),
        angular_hit(frag) ==> angular_hit(h + frag),
        svelte_hit(frag) ==> svelte_hit(h + frag),
        contains_seq(frag, "data-react"@) ==> react_hit(h + frag),
        contains_seq(frag, "/wp-content/"@) || contains_seq(frag, "/wp-includes/"@)
            ==> wordpress_hit(h + frag),
{
    lemma_both_ways(h, frag, "__NEXT_DATA__"@);
    lemma_both_ways(h, frag, "_next/static"@);
    lemma_both_ways(h, frag, "__NUXT__"@);
    lemma_both_ways(h, frag, "_nuxt/"@);
    lemma_both_ways(h, frag, "ng-app"@);
    lemma_both_ways(h, frag, "ng-controller"@);
    lemma_both_ways(h, frag, "svelte"@);
    lemma_both_ways(h, frag, "data-react"@);
    lemma_both_ways(h, frag, "/wp-content/"@);
    lemma_both_ways(h, frag, "/wp-includes/"@);
    if tailwind_class_match(h) {
        let a = choose|a: int| tailwind_hit_at(h, a);
        let b = choose|b: int| class_gap_ok(h, a, b) && tailwind_token_at(h, b);
        crate::text::lemma_occurs_append_right(h, frag, a, "class=\""@);
        assert(class_gap_ok(h + frag, a, b)) by {
            assert(forall|k: int| a + 7 <= k < b ==> (h + frag)[k] == h[k]);
        };
        assert(tailwind_token_at(h + frag, b)) by {
            if occurs_at(h, b, "flex"@) {
                crate::text::lemma_occurs_append_right(h, frag, b, "flex"@);
            }
            if occurs_at(h, b, "grid"@) {
                crate::text::lemma_occurs_append_right(h, frag, b, "grid"@);
            }
            if occurs_at(h, b, "mx-auto"@) {
                crate::text::lemma_occurs_append_right(h, frag, b, "mx-auto"@);
            }
            if occurs_at(h, b, "text-"@) {
                crate::text::lemma_occurs_append_right(h, frag, b, "text-"@);
            }
            if occurs_at(h, b, "bg-"@) {
                crate::text::lemma_occurs_append_right(h, frag, b, "bg-"@);
            }
            if occurs_at(h, b, "p-"@) && b + 2 < h.len() && crate::text::is_digit_char(
                h[b + 2],
            ) {
                crate::text::lemma_occurs_append_right(h, frag, b, "p-"@);
                assert((h + frag)[b + 2] == h[b + 2]);
            }
        };
        assert(tailwind_hit_at(h + frag, a));
    }
    if bootstrap_class_match(h) {
        let a = choose|a: int| bootstrap_hit_at(h, a);
        let b = choose|b: int| class_gap_ok(h, a, b) && bootstrap_token_at(h, b);
        crate::text::lemma_occurs_append_right(h, frag, a, "class=\""@);
        assert(class_gap_ok(h + frag, a, b)) by {
            assert(forall|k: int| a + 7 <= k < b ==> (h + frag)[k] == h[k]);
        };
        assert(bootstrap_token_at(h + frag, b)) by {
            if occurs_at(h, b, "col-md"@) {
                crate::text::lemma_occurs_append_right(h, frag, b, "col-md"@);
            }
            if occurs_at(h, b, "btn-primary"@) {
                crate::text::lemma_occurs_append_right(h, frag, b, "btn-primary"@);
            }
            if occurs_at(h, b, "container-fluid"@) {
                crate::text::lemma_occurs_append_right(h, frag, b, "container-fluid"@);
            }
        };
        assert(bootstrap_hit_at(h + frag, a));
    }
}

proof fn lemma_both_ways(h: Seq<char>, frag: Seq<char>, pat: Seq<char>)
    ensures
        contains_seq(h, pat) ==> contains_seq(h + frag, pat),
        contains_seq(frag, pat) ==> contains_seq(h + frag, pat),
{
    if contains_seq(h, pat) {
        crate::text::lemma_contains_append_right(h, frag, pat);
    }
    if contains_seq(frag, pat) {
        crate::text::lemma_contains_append_left(h, frag, pat);
    }
}

} // verus!
