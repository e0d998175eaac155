//! The HTML sanitizer: a fixed pipeline that pre-truncates pathological
//! input, removes script/style/svg/noscript subtrees and noisy attributes,
//! collapses whitespace, and caps the output size.

use vstd::prelude::*;
use crate::text::{
    bytes_len, is_space, utf8_len, run_end, lemma_bytes_len_concat, lemma_bytes_len_nonneg,
    lemma_bytes_len_take_succ, is_space_char, utf8_len_of, chars_of, string_of,
};
use crate::pattern::{
    PatKind, sp_fn, strip_pat, strip_from, find_pat, strip_pass, scan_spaces, elem_open_at,
    ci_match_at,
};

verus! {

/// Whitespace runs collapsed to single spaces, scanning from `i`;
/// `prev_space` says whether the scan stands just after a whitespace run.
pub open spec fn collapse_from(s: Seq<char>, i: int, prev_space: bool) -> Seq<char>
    decreases s.len() - i when 0 <= i <= s.len()
{
    if i >= s.len() {
        Seq::empty()
    } else if is_space(s[i]) {
        if prev_space {
            collapse_from(s, i + 1, true)
        } else {
            seq![' '] + collapse_from(s, i + 1, true)
        }
    } else {
        seq![s[i]] + collapse_from(s, i + 1, false)
    }
}

/// Every whitespace run replaced by a single space.
pub open spec fn collapse_ws(s: Seq<char>) -> Seq<char> {
    collapse_from(s, 0, false)
}

/// Where the trailing whitespace of `s` begins.
pub open spec fn end_trim(s: Seq<char>) -> int
    decreases s.len(),
{
    if s.len() == 0 {
        0
    } else if is_space(s.last()) {
        end_trim(s.drop_last())
    } else {
        s.len() as int
    }
}

/// The text with leading and trailing whitespace removed.
pub open spec fn trim_spec(s: Seq<char>) -> Seq<char> {
    let f = run_end(s, 0, sp_fn());
    if f == s.len() {
        Seq::empty()
    } else {
        s.subrange(f, end_trim(s))
    }
}

pub proof fn lemma_end_trim(s: Seq<char>)
    ensures
        0 <= end_trim(s) <= s.len(),
        forall|k: int| end_trim(s) <= k < s.len() ==> is_space(s[k]),
        end_trim(s) > 0 ==> !is_space(s[end_trim(s) - 1]),
    decreases s.len(),
{
    if s.len() > 0 && is_space(s.last()) {
        lemma_end_trim(s.drop_last());
        assert(forall|k: int| 0 <= k < s.len() - 1 ==> s.drop_last()[k] == s[k]);
    }
}

pub proof fn lemma_end_trim_is(s: Seq<char>, e: int)
    requires
        0 <= e <= s.len(),
        forall|k: int| e <= k < s.len() ==> is_space(s[k]),
        e > 0 ==> !is_space(s[e - 1]),
    ensures
        end_trim(s) == e,
    decreases s.len(),
{
    if s.len() > 0 && is_space(s.last()) {
        assert(e < s.len());
        assert(forall|k: int| 0 <= k < s.len() - 1 ==> s.drop_last()[k] == s[k]);
        lemma_end_trim_is(s.drop_last(), e);
    }
}

/// The length of the longest prefix whose UTF-8 encoding fits in `budget`
/// bytes.
pub open spec fn fit_len(s: Seq<char>, budget: int) -> int
    decreases s.len(),
{
    if bytes_len(s) <= budget {
        s.len() as int
    } else if s.len() == 0 {
        0
    } else {
        fit_len(s.drop_last(), budget)
    }
}

pub proof fn lemma_bytes_len_take_monotone(s: Seq<char>, i: int, j: int)
    requires
        0 <= i <= j <= s.len(),
    ensures
        bytes_len(s.take(i)) <= bytes_len(s.take(j)),
    decreases j - i,
{
    if i < j {
        lemma_bytes_len_take_succ(s, i);
        assert(utf8_len(s[i]) >= 1);
        lemma_bytes_len_take_monotone(s, i + 1, j);
    }
}

pub proof fn lemma_fit_len(s: Seq<char>, budget: int)
    requires
        budget >= 0,
    ensures
        0 <= fit_len(s, budget) <= s.len(),
        bytes_len(s.take(fit_len(s, budget))) <= budget,
    decreases s.len(),
{
    if bytes_len(s) <= budget {
        assert(s.take(s.len() as int) =~= s);
    } else if s.len() == 0 {
        assert(s.take(0) =~= Seq::<char>::empty());
    } else {
        lemma_fit_len(s.drop_last(), budget);
        assert(s.drop_last().take(fit_len(s.drop_last(), budget)) =~= s.take(
            fit_len(s.drop_last(), budget)));
    }
}

pub proof fn lemma_fit_len_is(s: Seq<char>, budget: int, n: int)
    requires
        budget >= 0,
        0 <= n <= s.len(),
        bytes_len(s.take(n)) <= budget,
        n < s.len() ==> bytes_len(s.take(n + 1)) > budget,
    ensures
        fit_len(s, budget) == n,
    decreases s.len(),
{
    if bytes_len(s) <= budget {
        if n < s.len() {
            lemma_bytes_len_take_monotone(s, n + 1, s.len() as int);
            assert(s.take(s.len() as int) =~= s);
        }
    } else {
        assert(s.take(s.len() as int) =~= s);
        assert(n < s.len());
        let d = s.drop_last();
        assert(d.take(n) =~= s.take(n));
        if n < d.len() {
            assert(d.take(n + 1) =~= s.take(n + 1));
        }
        lemma_fit_len_is(d, budget, n);
    }
}

/// Executable whitespace collapse, equal to `collapse_ws`.
pub fn collapse_exec(v: &Vec<char>) -> (r: Vec<char>)
    ensures
        r@ == collapse_ws(v@),
{
    let mut out: Vec<char> = Vec::new();
    let mut i: usize = 0;
    let mut prev_space = false;
    while i < v.len()
        invariant
            0 <= i <= v.len(),
            collapse_ws(v@) == out@ + collapse_from(v@, i as int, prev_space),
        decreases v.len() - i,
    {
        let c = v[i];
        let ghost prev = out@;
        if is_space_char(c) {
            if !prev_space {
                out.push(' ');
                proof {
                    assert(out@ =~= prev + seq![' ']);
                    assert((prev + seq![' ']) + collapse_from(v@, i as int + 1, true) =~= prev + (
                    seq![' '] + collapse_from(v@, i as int + 1, true)));
                }
            }
            prev_space = true;
        } else {
            out.push(c);
            proof {
                assert(out@ =~= prev + seq![c]);
                assert((prev + seq![c]) + collapse_from(v@, i as int + 1, false) =~= prev + (
                seq![c] + collapse_from(v@, i as int + 1, false)));
            }
            prev_space = false;
        }
        i = i + 1;
    }
    proof {
        assert(collapse_from(v@, v@.len() as int, prev_space) =~= Seq::<char>::empty());
        assert(collapse_ws(v@) =~= out@);
    }
    out
}

/// Executable trim, equal to `trim_spec`.
pub fn trim_exec(v: &Vec<char>) -> (r: Vec<char>)
    ensures
        r@ == trim_spec(v@),
{
    let f = scan_spaces(v, 0);
    if f == v.len() {
        proof {
            assert(trim_spec(v@) =~= Seq::<char>::empty());
        }
        return Vec::new();
    }
    let mut e = v.len();
    while e > 0 && is_space_char(v[e - 1])
        invariant
            0 <= e <= v.len(),
            forall|k: int| e <= k < v@.len() ==> is_space(v@[k]),
        decreases e,
    {
        e = e - 1;
    }
    proof {
        lemma_end_trim_is(v@, e as int);
        crate::text::lemma_run_end(v@, 0, sp_fn());
    }
    let mut out: Vec<char> = Vec::new();
    crate::pattern::copy_range(&mut out, v, f, e);
    proof {
        assert(out@ =~= trim_spec(v@));
    }
    out
}

/// The longest prefix of `v` whose UTF-8 form fits in `budget` bytes.
pub fn truncate_to_bytes(v: &Vec<char>, budget: usize) -> (r: Vec<char>)
    ensures
        r@ == v@.take(fit_len(v@, budget as int)),
{
    let mut i: usize = 0;
    let mut acc: usize = 0;
    while i < v.len() && utf8_len_of(v[i]) <= budget - acc
        invariant
            0 <= i <= v.len(),
            acc as int == bytes_len(v@.take(i as int)),
            acc <= budget,
        decreases v.len() - i,
    {
        proof {
            lemma_bytes_len_take_succ(v@, i as int);
        }
        acc = acc + utf8_len_of(v[i]);
        i = i + 1;
    }
    proof {
        if i < v@.len() {
            lemma_bytes_len_take_succ(v@, i as int);
        }
        lemma_fit_len_is(v@, budget as int, i as int);
    }
    let mut out: Vec<char> = Vec::new();
    crate::pattern::copy_range(&mut out, v, 0, i);
    proof {
        assert(out@ =~= v@.take(i as int));
    }
    out
}


/// Cost bound applied to the raw input before any pattern work.
pub const PRE_TRUNCATE_BYTES: usize = 1000000;

/// The cap on the sanitized output, before the truncation marker.
pub const HTML_MAX_BYTES: usize = 100 * 1024;

pub open spec fn tag_script() -> Seq<char> {
    "script"@
}

pub open spec fn tag_style() -> Seq<char> {
    "style"@
}

pub open spec fn tag_svg() -> Seq<char> {
    "svg"@
}

pub open spec fn tag_noscript() -> Seq<char> {
    "noscript"@
}

pub open spec fn name_on() -> Seq<char> {
    "on"@
}

pub open spec fn name_data() -> Seq<char> {
    "data-"@
}

pub open spec fn name_class() -> Seq<char> {
    "class"@
}

/// The suffix appended when the output had to be cut at the size cap.
pub open spec fn marker_seq() -> Seq<char> {
    "... [truncated]"@
}

/// The four subtree-removal passes followed by the four attribute passes,
/// in the order the sanitizer applies them.
pub open spec fn strip_all(s: Seq<char>) -> Seq<char> {
    let t1 = strip_pat(s, PatKind::Elem, tag_script());
    let t2 = strip_pat(t1, PatKind::Elem, tag_style());
    let t3 = strip_pat(t2, PatKind::Elem, tag_svg());
    let t4 = strip_pat(t3, PatKind::Elem, tag_noscript());
    let t5 = strip_pat(t4, PatKind::OnAttr, name_on());
    let t6 = strip_pat(t5, PatKind::DataAttr, name_data());
    let t7 = strip_pat(t6, PatKind::NamedAttr, tag_style());
    strip_pat(t7, PatKind::NamedAttr, name_class())
}

/// The whole sanitizer pipeline.
pub open spec fn sanitize_spec(raw: Seq<char>) -> Seq<char> {
    let pre = raw.take(fit_len(raw, PRE_TRUNCATE_BYTES as int));
    let t = trim_spec(collapse_ws(strip_all(pre)));
    if bytes_len(t) > HTML_MAX_BYTES as int {
        t.take(fit_len(t, HTML_MAX_BYTES as int)) + marker_seq()
    } else {
        t
    }
}

pub proof fn lemma_strip_from_len(s: Seq<char>, kind: PatKind, name: Seq<char>, from: int)
    requires
        0 <= from <= s.len(),
    ensures
        strip_from(s, kind, name, from).len() <= s.len() - from,
    decreases s.len() - from,
{
    let a = find_pat(s, kind, name, from);
    if a >= 0 {
        crate::pattern::lemma_first_where(s.len() as int, from,
            crate::pattern::match_pred(s, kind, name));
        crate::pattern::lemma_match_end_bounds(s, kind, name, a);
        let b = crate::pattern::match_end(s, kind, name, a);
        lemma_strip_from_len(s, kind, name, b);
    }
}

pub proof fn lemma_collapse_len(s: Seq<char>, i: int, prev_space: bool)
    requires
        0 <= i <= s.len(),
    ensures
        collapse_from(s, i, prev_space).len() <= s.len() - i,
    decreases s.len() - i,
{
    if i < s.len() {
        lemma_collapse_len(s, i + 1, true);
        lemma_collapse_len(s, i + 1, false);
    }
}

pub proof fn lemma_trim_len(s: Seq<char>)
    ensures
        trim_spec(s).len() <= s.len(),
{
    crate::text::lemma_run_end(s, 0, sp_fn());
    lemma_end_trim(s);
}

/// The UTF-8 length of a piece of a text is at most that of the whole.
pub proof fn lemma_bytes_len_subrange_le(s: Seq<char>, a: int, b: int)
    requires
        0 <= a <= b <= s.len(),
    ensures
        bytes_len(s.subrange(a, b)) <= bytes_len(s),
{
    let pre = s.subrange(0, a);
    let mid = s.subrange(a, b);
    let post = s.subrange(b, s.len() as int);
    assert(s =~= (pre + mid) + post);
    lemma_bytes_len_concat(pre + mid, post);
    lemma_bytes_len_concat(pre, mid);
    lemma_bytes_len_nonneg(pre);
    lemma_bytes_len_nonneg(post);
}

/// The executable byte length of a character vector.
pub fn bytes_len_exec(v: &Vec<char>) -> (r: usize)
    requires
        v@.len() <= 100000000,
    ensures
        r as int == bytes_len(v@),
{
    let mut i: usize = 0;
    let mut acc: usize = 0;
    while i < v.len()
        invariant
            v@.len() <= 100000000,
            0 <= i <= v.len(),
            acc as int == bytes_len(v@.take(i as int)),
            acc <= 4 * i,
        decreases v.len() - i,
    {
        proof {
            lemma_bytes_len_take_succ(v@, i as int);
        }
        acc = acc + utf8_len_of(v[i]);
        i = i + 1;
    }
    proof {
        assert(v@.take(v@.len() as int) =~= v@);
    }
    acc
}


/// The truncation marker as a character vector.
fn marker_vec() -> (r: Vec<char>)
    ensures
        r@ == marker_seq(),
{
    let m = chars_of("... [truncated]");
    m
}

/// Sanitizes raw page markup: pre-truncates to a cost bound, removes
/// script/style/svg/noscript subtrees, strips event-handler, data, style
/// and class attributes, collapses whitespace runs to single spaces,
/// trims, and caps the result, appending a truncation marker when the cap
/// was hit.  Pure and total; never fails.  The output never exceeds
/// `HTML_MAX_BYTES` plus the marker's own length.
pub fn preprocess_html(raw: &str) -> (r: String)
    ensures
        r@ == sanitize_spec(raw@),
        bytes_len(r@) <= HTML_MAX_BYTES as int + 15,
{
    proof {
        lemma_marker_len();
    }
    let v0 = chars_of(raw);
    let pre = truncate_to_bytes(&v0, PRE_TRUNCATE_BYTES);
    proof {
        lemma_fit_len(v0@, PRE_TRUNCATE_BYTES as int);
        lemma_bytes_len_nonneg(pre@);
    }
    let script = chars_of("script");
    let style = chars_of("style");
    let svg = chars_of("svg");
    let noscript = chars_of("noscript");
    let on_name = chars_of("on");
    let data_name = chars_of("data-");
    let class_name = chars_of("class");
    let t1 = strip_pass(&pre, PatKind::Elem, &script);
    let t2 = strip_pass(&t1, PatKind::Elem, &style);
    let t3 = strip_pass(&t2, PatKind::Elem, &svg);
    let t4 = strip_pass(&t3, PatKind::Elem, &noscript);
    let t5 = strip_pass(&t4, PatKind::OnAttr, &on_name);
    let t6 = strip_pass(&t5, PatKind::DataAttr, &data_name);
    let t7 = strip_pass(&t6, PatKind::NamedAttr, &style);
    let t8 = strip_pass(&t7, PatKind::NamedAttr, &class_name);
    let t9 = collapse_exec(&t8);
    let t = trim_exec(&t9);
    proof {
        lemma_strip_from_len(pre@, PatKind::Elem, tag_script(), 0);
        lemma_strip_from_len(t1@, PatKind::Elem, tag_style(), 0);
        lemma_strip_from_len(t2@, PatKind::Elem, tag_svg(), 0);
        lemma_strip_from_len(t3@, PatKind::Elem, tag_noscript(), 0);
        lemma_strip_from_len(t4@, PatKind::OnAttr, name_on(), 0);
        lemma_strip_from_len(t5@, PatKind::DataAttr, name_data(), 0);
        lemma_strip_from_len(t6@, PatKind::NamedAttr, tag_style(), 0);
        lemma_strip_from_len(t7@, PatKind::NamedAttr, name_class(), 0);
        lemma_collapse_len(t8@, 0, false);
        lemma_trim_len(t9@);
        lemma_bytes_len_nonneg(v0@.take(fit_len(v0@, PRE_TRUNCATE_BYTES as int)));
        assert(t@.len() <= 100000000);
    }
    let total = bytes_len_exec(&t);
    if total > HTML_MAX_BYTES {
        let cut = truncate_to_bytes(&t, HTML_MAX_BYTES);
        proof {
            lemma_fit_len(t@, HTML_MAX_BYTES as int);
        }
        let marker = marker_vec();
        let mut out_v = cut;
        let ghost cut_view = out_v@;
        crate::pattern::copy_range(&mut out_v, &marker, 0, marker.len());
        proof {
            assert(marker@.subrange(0, marker@.len() as int) =~= marker_seq());
            lemma_bytes_len_concat(cut_view, marker_seq());
        }
        string_of(&out_v)
    } else {
        proof {
            lemma_bytes_len_nonneg(marker_seq());
        }
        string_of(&t)
    }
}


/// No rewrite rule of the sanitizer matches anywhere in the text.
pub open spec fn no_rule_matches(s: Seq<char>) -> bool {
    &&& find_pat(s, PatKind::Elem, tag_script(), 0) == -1
    &&& find_pat(s, PatKind::Elem, tag_style(), 0) == -1
    &&& find_pat(s, PatKind::Elem, tag_svg(), 0) == -1
    &&& find_pat(s, PatKind::Elem, tag_noscript(), 0) == -1
    &&& find_pat(s, PatKind::OnAttr, name_on(), 0) == -1
    &&& find_pat(s, PatKind::DataAttr, name_data(), 0) == -1
    &&& find_pat(s, PatKind::NamedAttr, tag_style(), 0) == -1
    &&& find_pat(s, PatKind::NamedAttr, name_class(), 0) == -1
}

/// Every whitespace character is a plain space and no two are adjacent.
pub open spec fn single_spaced(s: Seq<char>) -> bool {
    &&& forall|k: int| 0 <= k < s.len() && is_space(s[k]) ==> s[k] == ' '
    &&& forall|k: int| 0 <= k < s.len() - 1 ==> !(is_space(s[k]) && is_space(#[trigger] s[k + 1]))
}

/// A pass without a match leaves the text unchanged.
pub proof fn lemma_strip_no_match(s: Seq<char>, kind: PatKind, name: Seq<char>)
    requires
        find_pat(s, kind, name, 0) == -1,
    ensures
        strip_pat(s, kind, name) == s,
{
    assert(s.subrange(0, s.len() as int) =~= s);
}

pub proof fn lemma_collapse_clean(s: Seq<char>, i: int, prev_space: bool)
    requires
        single_spaced(s),
        0 <= i <= s.len(),
        prev_space ==> (i == s.len() || !is_space(s[i])),
    ensures
        collapse_from(s, i, prev_space) == s.subrange(i, s.len() as int),
    decreases s.len() - i,
{
    if i < s.len() {
        if is_space(s[i]) {
            lemma_collapse_clean(s, i + 1, true);
            assert(s[i] == ' ');
            assert(seq![' '] + s.subrange(i + 1, s.len() as int) =~= s.subrange(i,
                s.len() as int));
        } else {
            lemma_collapse_clean(s, i + 1, false);
            assert(seq![s[i]] + s.subrange(i + 1, s.len() as int) =~= s.subrange(i,
                s.len() as int));
        }
    } else {
        assert(s.subrange(i, s.len() as int) =~= Seq::<char>::empty());
    }
}

/// Sanitizing already-sanitized text — nothing left for any rule to
/// remove, whitespace already collapsed, within the size cap — returns the
/// same text except possibly for trimming; trimmed text comes back
/// unchanged.
pub proof fn lemma_sanitize_clean_is_trim(s: Seq<char>)
    requires
        no_rule_matches(s),
        single_spaced(s),
        bytes_len(s) <= HTML_MAX_BYTES as int,
    ensures
        sanitize_spec(s) == trim_spec(s),
        s.len() == 0 ==> sanitize_spec(s) == s,
        (s.len() > 0 && !is_space(s[0]) && !is_space(s[s.len() - 1])) ==> sanitize_spec(s) == s,
{
    assert(fit_len(s, PRE_TRUNCATE_BYTES as int) == s.len());
    assert(s.take(s.len() as int) =~= s);
    lemma_strip_no_match(s, PatKind::Elem, tag_script());
    lemma_strip_no_match(s, PatKind::Elem, tag_style());
    lemma_strip_no_match(s, PatKind::Elem, tag_svg());
    lemma_strip_no_match(s, PatKind::Elem, tag_noscript());
    lemma_strip_no_match(s, PatKind::OnAttr, name_on());
    lemma_strip_no_match(s, PatKind::DataAttr, name_data());
    lemma_strip_no_match(s, PatKind::NamedAttr, tag_style());
    lemma_strip_no_match(s, PatKind::NamedAttr, name_class());
    lemma_collapse_clean(s, 0, false);
    assert(collapse_ws(s) == s.subrange(0, s.len() as int));
    assert(collapse_ws(s) =~= s);
    let t = trim_spec(s);
    crate::text::lemma_run_end(s, 0, sp_fn());
    lemma_end_trim(s);
    let f = run_end(s, 0, sp_fn());
    if f == s.len() {
        assert(bytes_len(t) == 0);
    } else {
        assert(!is_space(s[f]));
        assert(f < end_trim(s));
        lemma_bytes_len_subrange_le(s, f, end_trim(s));
    }
    assert(bytes_len(t) <= HTML_MAX_BYTES as int);
    if s.len() == 0 {
        assert(trim_spec(s) =~= s);
    }
    if s.len() > 0 && !is_space(s[0]) && !is_space(s[s.len() - 1]) {
        assert(run_end(s, 0, sp_fn()) == 0);
        lemma_end_trim_is(s, s.len() as int);
        assert(trim_spec(s) == s.subrange(0, s.len() as int));
        assert(trim_spec(s) =~= s);
    }
}

/// For text holding exactly one closed element of the given name, with no
/// stray `<` just before it, the removal pass deletes the whole element —
/// opening tag, content and closing tag — and no opening tag of that name
/// remains anywhere in the output.
pub proof fn lemma_element_removed(s: Seq<char>, name: Seq<char>)
    requires
        find_pat(s, PatKind::Elem, name, 0) >= 0,
        forall|k: int| k != find_pat(s, PatKind::Elem, name, 0) ==> !elem_open_at(s, name, k),
        forall|k: int|
            find_pat(s, PatKind::Elem, name, 0) - (name.len() + 2) <= k < find_pat(s,
                PatKind::Elem, name, 0) ==> s[k] != '<',
    ensures
        ({
            let a = find_pat(s, PatKind::Elem, name, 0);
            let b = crate::pattern::match_end(s, PatKind::Elem, name, a);
            strip_pat(s, PatKind::Elem, name) == s.subrange(0, a) + s.subrange(b, s.len() as int)
        }),
        forall|k: int| !elem_open_at(strip_pat(s, PatKind::Elem, name), name, k),
{
    let a = find_pat(s, PatKind::Elem, name, 0);
    let b = crate::pattern::match_end(s, PatKind::Elem, name, a);
    crate::pattern::lemma_first_where(s.len() as int, 0, crate::pattern::match_pred(s,
        PatKind::Elem, name));
    crate::pattern::lemma_match_end_bounds(s, PatKind::Elem, name, a);
    assert(elem_open_at(s, name, a));
    assert(forall|k: int| b <= k < s.len() ==>
        crate::pattern::match_end(s, PatKind::Elem, name, k) == -1);
    crate::pattern::lemma_first_where_is(s.len() as int, b, crate::pattern::match_pred(s,
        PatKind::Elem, name), s.len() as int);
    assert(find_pat(s, PatKind::Elem, name, b) == -1);
    assert(strip_from(s, PatKind::Elem, name, b) == s.subrange(b, s.len() as int));
    let out = strip_pat(s, PatKind::Elem, name);
    assert(out == s.subrange(0, a) + s.subrange(b, s.len() as int));
    assert forall|k: int| !elem_open_at(out, name, k) by {
        if elem_open_at(out, name, k) {
            assert(0 <= k && k + name.len() + 2 <= out.len());
            assert(out.len() == a + (s.len() - b));
            if k + name.len() + 2 <= a {
                assert(forall|m: int| 0 <= m < name.len() + 2 ==> #[trigger] out[k + m] == s[k + m]);
                assert(ci_match_at(out, name, k + 1) ==> ci_match_at(s, name, k + 1));
                assert(elem_open_at(s, name, k));
                assert(false);
            } else if k >= a {
                let d = b - a;
                assert(forall|m: int| 0 <= m < name.len() + 2 ==> #[trigger] out[k + m] == s[k + m + d]);
                assert(ci_match_at(s, name, k + d + 1));
                assert(elem_open_at(s, name, k + d));
                assert(k + d > a);
                assert(false);
            } else {
                assert(k < a && a < k + name.len() + 2);
                assert(a - (name.len() + 2) <= k < a);
                assert(out[k] == s[k]);
                assert(out[k] == '<');
                assert(false);
            }
        }
    }
}


proof fn lemma_bytes_len_ascii(s: Seq<char>)
    requires
        forall|k: int| 0 <= k < s.len() ==> (#[trigger] s[k] as u32) < 0x80,
    ensures
        bytes_len(s) == s.len(),
    decreases s.len(),
{
    if s.len() > 0 {
        assert(forall|k: int| 0 <= k < s.len() - 1 ==> s.drop_last()[k] == s[k]);
        assert((s[s.len() - 1] as u32) < 0x80);
        lemma_bytes_len_ascii(s.drop_last());
    }
}

/// The truncation marker takes fifteen bytes, so the sanitizer's output
/// never exceeds the cap plus fifteen bytes.
pub proof fn lemma_marker_len()
    ensures
        marker_seq().len() == 15,
        bytes_len(marker_seq()) == 15,
{
    reveal_strlit("... [truncated]");
    let m = marker_seq();
    assert(m.len() == 15);
    assert forall|k: int| 0 <= k < m.len() implies (#[trigger] m[k] as u32) < 0x80 by {
        if k == 0 {
            assert(m[0] == '.');
        } else if k == 1 {
            assert(m[1] == '.');
        } else if k == 2 {
            assert(m[2] == '.');
        } else if k == 3 {
            assert(m[3] == ' ');
        } else if k == 4 {
            assert(m[4] == '[');
        } else if k == 5 {
            assert(m[5] == 't');
        } else if k == 6 {
            assert(m[6] == 'r');
        } else if k == 7 {
            assert(m[7] == 'u');
        } else if k == 8 {
            assert(m[8] == 'n');
        } else if k == 9 {
            assert(m[9] == 'c');
        } else if k == 10 {
            assert(m[10] == 'a');
        } else if k == 11 {
            assert(m[11] == 't');
        } else if k == 12 {
            assert(m[12] == 'e');
        } else if k == 13 {
            assert(m[13] == 'd');
        } else {
            assert(m[14] == ']');
        }
    }
    lemma_bytes_len_ascii(m);
}

} // verus!
