//! The sanitizer's text-rewrite rules: case-insensitive element subtrees
//! (`<tag ...>...</tag>`) and noisy attributes (`on*`, `data-*`, `style`,
//! `class`), located by deterministic left-to-right scanning, with the
//! leftmost match removed and the scan resuming after it.

use vstd::prelude::*;
use crate::text::{
    is_space, is_word, lower_char, run_end, is_space_char, is_word_char, to_lower_char,
    lemma_run_end, lemma_run_end_is,
};

verus! {

/// Which rewrite rule a pass applies.
#[derive(Clone, Copy)]
pub enum PatKind {
    /// A whole element with open and close tags: `<name[\s>] ... </name>`.
    Elem,
    /// An attribute whose name is `name` followed by one or more word
    /// characters (the `on*` event handlers).
    OnAttr,
    /// An attribute whose name is `name` followed by one or more word or
    /// hyphen characters (the `data-*` attributes).
    DataAttr,
    /// An attribute whose name is exactly `name`.
    NamedAttr,
}

pub open spec fn sp_fn() -> spec_fn(char) -> bool {
    |c: char| is_space(c)
}

pub open spec fn word_fn() -> spec_fn(char) -> bool {
    |c: char| is_word(c)
}

pub open spec fn word_dash_fn() -> spec_fn(char) -> bool {
    |c: char| is_word(c) || c == '-'
}

/// Characters an unquoted attribute value may hold.
pub open spec fn unq_fn() -> spec_fn(char) -> bool {
    |c: char| !is_space(c) && c != '>'
}

/// Case-insensitive match of the lowercase literal `lit` at position `i`.
pub open spec fn ci_match_at(s: Seq<char>, lit: Seq<char>, i: int) -> bool {
    &&& i >= 0
    &&& i + lit.len() <= s.len()
    &&& forall|k: int| 0 <= k < lit.len() ==> lower_char(s[i + k]) == lit[k]
}

/// An opening tag `<name` followed by whitespace or `>` at position `i`.
pub open spec fn elem_open_at(s: Seq<char>, name: Seq<char>, i: int) -> bool {
    &&& i >= 0
    &&& i + name.len() + 2 <= s.len()
    &&& s[i] == '<'
    &&& ci_match_at(s, name, i + 1)
    &&& (is_space(s[i + 1 + name.len()]) || s[i + 1 + name.len()] == '>')
}

/// A closing tag `</name>` at position `i`.
pub open spec fn elem_close_at(s: Seq<char>, name: Seq<char>, i: int) -> bool {
    &&& i >= 0
    &&& i + name.len() + 3 <= s.len()
    &&& s[i] == '<'
    &&& s[i + 1] == '/'
    &&& ci_match_at(s, name, i + 2)
    &&& s[i + 2 + name.len()] == '>'
}

pub open spec fn close_pred(s: Seq<char>, name: Seq<char>) -> spec_fn(int) -> bool {
    |j: int| elem_close_at(s, name, j)
}

pub open spec fn char_pred(s: Seq<char>, c: char) -> spec_fn(int) -> bool {
    |j: int| 0 <= j < s.len() && s[j] == c
}

/// The first index in `[from, len)` satisfying `q`, or -1 if there is none.
pub open spec fn first_where(len: int, from: int, q: spec_fn(int) -> bool) -> int
    decreases len - from when from <= len
{
    if from < 0 || from >= len {
        -1
    } else if q(from) {
        from
    } else {
        first_where(len, from + 1, q)
    }
}

pub proof fn lemma_first_where(len: int, from: int, q: spec_fn(int) -> bool)
    requires
        0 <= from <= len,
    ensures
        first_where(len, from, q) == -1 ==> forall|k: int| from <= k < len ==> !#[trigger] q(k),
        first_where(len, from, q) != -1 ==> {
            let r = first_where(len, from, q);
            &&& from <= r < len
            &&& q(r)
            &&& forall|k: int| from <= k < r ==> !#[trigger] q(k)
        },
    decreases len - from,
{
    if 0 <= from < len && !q(from) {
        lemma_first_where(len, from + 1, q);
    }
}

pub proof fn lemma_first_where_is(len: int, from: int, q: spec_fn(int) -> bool, j: int)
    requires
        0 <= from <= j <= len,
        forall|k: int| from <= k < j ==> !#[trigger] q(k),
        j < len ==> q(j),
    ensures
        first_where(len, from, q) == if j == len {
            -1 as int
        } else {
            j
        },
    decreases len - from,
{
    if from < j {
        lemma_first_where_is(len, from + 1, q, j);
    }
}

/// Where the name part of an attribute match ends, the name part starting
/// at `p1`; -1 if it does not match there.
pub open spec fn attr_name_end(s: Seq<char>, kind: PatKind, name: Seq<char>, p1: int) -> int {
    match kind {
        PatKind::Elem => -1,
        PatKind::OnAttr => if ci_match_at(s, name, p1) {
            let w = run_end(s, p1 + name.len(), word_fn());
            if w > p1 + name.len() {
                w
            } else {
                -1
            }
        } else {
            -1
        },
        PatKind::DataAttr => if ci_match_at(s, name, p1) {
            let w = run_end(s, p1 + name.len(), word_dash_fn());
            if w > p1 + name.len() {
                w
            } else {
                -1
            }
        } else {
            -1
        },
        PatKind::NamedAttr => if ci_match_at(s, name, p1) {
            p1 + name.len()
        } else {
            -1
        },
    }
}

/// Where the attribute value starting at `p` ends: a double- or
/// single-quoted value runs to its closing quote; otherwise (also when the
/// quote never closes) the value is the possibly empty run of characters
/// that are neither whitespace nor `>`.
pub open spec fn value_end(s: Seq<char>, p: int) -> int {
    if p < s.len() && s[p] == '"' {
        let q = first_where(s.len() as int, p + 1, char_pred(s, '"'));
        if q >= 0 {
            q + 1
        } else {
            run_end(s, p, unq_fn())
        }
    } else if p < s.len() && s[p] == '\'' {
        let q = first_where(s.len() as int, p + 1, char_pred(s, '\''));
        if q >= 0 {
            q + 1
        } else {
            run_end(s, p, unq_fn())
        }
    } else {
        run_end(s, p, unq_fn())
    }
}

/// Where an attribute match starting at `i` ends
/// (`\s+ NAME \s* = \s* VALUE`), or -1 if there is no match at `i`.
pub open spec fn attr_match_end(s: Seq<char>, kind: PatKind, name: Seq<char>, i: int) -> int {
    if !(0 <= i < s.len()) || !is_space(s[i]) {
        -1
    } else {
        let p1 = run_end(s, i, sp_fn());
        let p2 = attr_name_end(s, kind, name, p1);
        if p2 < 0 {
            -1
        } else {
            let p3 = run_end(s, p2, sp_fn());
            if p3 >= s.len() || s[p3] != '=' {
                -1
            } else {
                let p4 = run_end(s, p3 + 1, sp_fn());
                value_end(s, p4)
            }
        }
    }
}

/// Where the match of the given rule starting at position `i` ends,
/// or -1 if the rule does not match at `i`.
pub open spec fn match_end(s: Seq<char>, kind: PatKind, name: Seq<char>, i: int) -> int {
    match kind {
        PatKind::Elem => if elem_open_at(s, name, i) {
            let e = first_where(s.len() as int, i + name.len() + 2, close_pred(s, name));
            if e >= 0 {
                e + name.len() + 3
            } else {
                -1
            }
        } else {
            -1
        },
        _ => attr_match_end(s, kind, name, i),
    }
}

pub open spec fn match_pred(s: Seq<char>, kind: PatKind, name: Seq<char>) -> spec_fn(int) -> bool {
    |i: int| match_end(s, kind, name, i) >= 0
}

/// The first position at or after `from` where the rule matches, or -1.
pub open spec fn find_pat(s: Seq<char>, kind: PatKind, name: Seq<char>, from: int) -> int {
    first_where(s.len() as int, from, match_pred(s, kind, name))
}

/// A successful match ends after it starts and within the text.
pub proof fn lemma_match_end_bounds(s: Seq<char>, kind: PatKind, name: Seq<char>, i: int)
    requires
        match_end(s, kind, name, i) >= 0,
    ensures
        i < match_end(s, kind, name, i) <= s.len(),
{
    match kind {
        PatKind::Elem => {
            let e = first_where(s.len() as int, i + name.len() + 2, close_pred(s, name));
            lemma_first_where(s.len() as int, i + name.len() + 2, close_pred(s, name));
            assert(elem_close_at(s, name, e));
        },
        _ => {
            let p1 = run_end(s, i, sp_fn());
            lemma_run_end(s, i, sp_fn());
            let p2 = attr_name_end(s, kind, name, p1);
            match kind {
                PatKind::OnAttr => {
                    lemma_run_end(s, p1 + name.len(), word_fn());
                },
                PatKind::DataAttr => {
                    lemma_run_end(s, p1 + name.len(), word_dash_fn());
                },
                _ => {},
            }
            assert(p2 >= p1 + name.len());
            assert(p2 <= s.len());
            let p3 = run_end(s, p2, sp_fn());
            lemma_run_end(s, p2, sp_fn());
            let p4 = run_end(s, p3 + 1, sp_fn());
            lemma_run_end(s, p3 + 1, sp_fn());
            lemma_value_end_bounds(s, p4);
        },
    }
}

pub proof fn lemma_value_end_bounds(s: Seq<char>, p: int)
    requires
        0 <= p <= s.len(),
    ensures
        p <= value_end(s, p) <= s.len(),
{
    lemma_run_end(s, p, unq_fn());
    if p < s.len() && s[p] == '"' {
        lemma_first_where(s.len() as int, p + 1, char_pred(s, '"'));
    } else if p < s.len() && s[p] == '\'' {
        lemma_first_where(s.len() as int, p + 1, char_pred(s, '\''));
    }
}

/// The text with every match of the rule removed: from `from` on, the text
/// up to the leftmost match is kept, the match is dropped, and the scan
/// resumes where the match ended.
pub open spec fn strip_from(s: Seq<char>, kind: PatKind, name: Seq<char>, from: int) -> Seq<char>
    decreases s.len() - from when 0 <= from <= s.len()
{
    let a = find_pat(s, kind, name, from);
    if a < 0 {
        s.subrange(from, s.len() as int)
    } else {
        let b = match_end(s, kind, name, a);
        if from <= a && a < b && b <= s.len() {
            s.subrange(from, a) + strip_from(s, kind, name, b)
        } else {
            // never reached: a matched position always has a later end
            s.subrange(from, s.len() as int)
        }
    }
}

/// One whole rewrite pass over the text.
pub open spec fn strip_pat(s: Seq<char>, kind: PatKind, name: Seq<char>) -> Seq<char> {
    strip_from(s, kind, name, 0)
}

/// Executable case-insensitive literal match, equal to `ci_match_at`.
pub fn ci_match(v: &Vec<char>, lit: &Vec<char>, i: usize) -> (r: bool)
    ensures
        r == ci_match_at(v@, lit@, i as int),
{
    if i > v.len() || v.len() - i < lit.len() {
        return false;
    }
    let mut k: usize = 0;
    while k < lit.len()
        invariant
            i + lit.len() <= v.len(),
            0 <= k <= lit.len(),
            forall|m: int| 0 <= m < k ==> lower_char(v@[i + m]) == lit@[m],
        decreases lit.len() - k,
    {
        if to_lower_char(v[i + k]) != lit[k] {
            return false;
        }
        k = k + 1;
    }
    true
}

/// Executable opening-tag test, equal to `elem_open_at`.
pub fn elem_open(v: &Vec<char>, name: &Vec<char>, i: usize) -> (r: bool)
    ensures
        r == elem_open_at(v@, name@, i as int),
{
    if i > v.len() {
        return false;
    }
    let rem = v.len() - i;
    if rem < 2 || rem - 2 < name.len() {
        return false;
    }
    if v[i] != '<' {
        return false;
    }
    if !ci_match(v, name, i + 1) {
        return false;
    }
    let c = v[i + 1 + name.len()];
    is_space_char(c) || c == '>'
}

/// Executable closing-tag test, equal to `elem_close_at`.
pub fn elem_close(v: &Vec<char>, name: &Vec<char>, i: usize) -> (r: bool)
    ensures
        r == elem_close_at(v@, name@, i as int),
{
    if i > v.len() {
        return false;
    }
    let rem = v.len() - i;
    if rem < 3 || rem - 3 < name.len() {
        return false;
    }
    if v[i] != '<' || v[i + 1] != '/' {
        return false;
    }
    if !ci_match(v, name, i + 2) {
        return false;
    }
    v[i + 2 + name.len()] == '>'
}


/// The first non-whitespace position at or after `from`.
pub fn scan_spaces(v: &Vec<char>, from: usize) -> (r: usize)
    requires
        from <= v.len(),
    ensures
        r as int == run_end(v@, from as int, sp_fn()),
        from <= r <= v.len(),
{
    let mut j = from;
    while j < v.len() && is_space_char(v[j])
        invariant
            from <= j <= v.len(),
            forall|k: int| from <= k < j ==> is_space(v@[k]),
        decreases v.len() - j,
    {
        j = j + 1;
    }
    proof {
        lemma_run_end_is(v@, from as int, sp_fn(), j as int);
    }
    j
}

/// The end of the word-character run at or after `from`.
pub fn scan_word(v: &Vec<char>, from: usize) -> (r: usize)
    requires
        from <= v.len(),
    ensures
        r as int == run_end(v@, from as int, word_fn()),
        from <= r <= v.len(),
{
    let mut j = from;
    while j < v.len() && is_word_char(v[j])
        invariant
            from <= j <= v.len(),
            forall|k: int| from <= k < j ==> is_word(v@[k]),
        decreases v.len() - j,
    {
        j = j + 1;
    }
    proof {
        lemma_run_end_is(v@, from as int, word_fn(), j as int);
    }
    j
}

/// The end of the word-or-hyphen run at or after `from`.
pub fn scan_word_dash(v: &Vec<char>, from: usize) -> (r: usize)
    requires
        from <= v.len(),
    ensures
        r as int == run_end(v@, from as int, word_dash_fn()),
        from <= r <= v.len(),
{
    let mut j = from;
    while j < v.len() && (is_word_char(v[j]) || v[j] == '-')
        invariant
            from <= j <= v.len(),
            forall|k: int| from <= k < j ==> is_word(v@[k]) || v@[k] == '-',
        decreases v.len() - j,
    {
        j = j + 1;
    }
    proof {
        lemma_run_end_is(v@, from as int, word_dash_fn(), j as int);
    }
    j
}

/// The end of the unquoted-value run at or after `from`.
pub fn scan_unquoted(v: &Vec<char>, from: usize) -> (r: usize)
    requires
        from <= v.len(),
    ensures
        r as int == run_end(v@, from as int, unq_fn()),
        from <= r <= v.len(),
{
    let mut j = from;
    while j < v.len() && !is_space_char(v[j]) && v[j] != '>'
        invariant
            from <= j <= v.len(),
            forall|k: int| from <= k < j ==> !is_space(v@[k]) && v@[k] != '>',
        decreases v.len() - j,
    {
        j = j + 1;
    }
    proof {
        lemma_run_end_is(v@, from as int, unq_fn(), j as int);
    }
    j
}

/// The first position at or after `from` holding the character `c`, or None.
pub fn scan_char(v: &Vec<char>, from: usize, c: char) -> (r: Option<usize>)
    requires
        from <= v.len(),
    ensures
        match r {
            Some(j) => first_where(v@.len() as int, from as int, char_pred(v@, c)) == j as int
                && from <= j < v.len(),
            None => first_where(v@.len() as int, from as int, char_pred(v@, c)) == -1,
        },
{
    let mut j = from;
    while j < v.len() && v[j] != c
        invariant
            from <= j <= v.len(),
            forall|k: int| from <= k < j ==> v@[k] != c,
        decreases v.len() - j,
    {
        j = j + 1;
    }
    proof {
        lemma_first_where_is(v@.len() as int, from as int, char_pred(v@, c), j as int);
    }
    if j < v.len() {
        Some(j)
    } else {
        None
    }
}

/// Where the attribute value starting at `p` ends, equal to `value_end`.
pub fn scan_value(v: &Vec<char>, p: usize) -> (r: usize)
    requires
        p <= v.len(),
    ensures
        r as int == value_end(v@, p as int),
        p <= r <= v.len(),
{
    proof {
        lemma_value_end_bounds(v@, p as int);
    }
    if p < v.len() && v[p] == '"' {
        match scan_char(v, p + 1, '"') {
            Some(q) => q + 1,
            None => scan_unquoted(v, p),
        }
    } else if p < v.len() && v[p] == '\'' {
        match scan_char(v, p + 1, '\'') {
            Some(q) => q + 1,
            None => scan_unquoted(v, p),
        }
    } else {
        scan_unquoted(v, p)
    }
}

/// Attempts the rule at position `i`; returns where the match ends, equal
/// to `match_end`.
pub fn match_at(v: &Vec<char>, kind: PatKind, name: &Vec<char>, i: usize) -> (r: Option<usize>)
    requires
        i < v.len(),
    ensures
        match r {
            Some(b) => match_end(v@, kind, name@, i as int) == b as int && i < b <= v.len(),
            None => match_end(v@, kind, name@, i as int) == -1,
        },
{
    match kind {
        PatKind::Elem => {
            if !elem_open(v, name, i) {
                return None;
            }
            let start = i + name.len() + 2;
            let mut e = start;
            while e < v.len() && !elem_close(v, name, e)
                invariant
                    start <= e <= v.len(),
                    forall|k: int| start <= k < e ==> !elem_close_at(v@, name@, k),
                decreases v.len() - e,
            {
                e = e + 1;
            }
            proof {
                lemma_first_where_is(v@.len() as int, start as int, close_pred(v@, name@),
                    e as int);
            }
            if e < v.len() {
                assert(elem_close_at(v@, name@, e as int));
                Some(e + name.len() + 3)
            } else {
                None
            }
        },
        _ => {
            if !is_space_char(v[i]) {
                return None;
            }
            let p1 = scan_spaces(v, i);
            let p2: usize;
            match kind {
                PatKind::OnAttr => {
                    if !ci_match(v, name, p1) {
                        return None;
                    }
                    let w = scan_word(v, p1 + name.len());
                    if w == p1 + name.len() {
                        return None;
                    }
                    p2 = w;
                },
                PatKind::DataAttr => {
                    if !ci_match(v, name, p1) {
                        return None;
                    }
                    let w = scan_word_dash(v, p1 + name.len());
                    if w == p1 + name.len() {
                        return None;
                    }
                    p2 = w;
                },
                _ => {
                    if !ci_match(v, name, p1) {
                        return None;
                    }
                    p2 = p1 + name.len();
                },
            }
            assert(p2 as int == attr_name_end(v@, kind, name@, p1 as int));
            let p3 = scan_spaces(v, p2);
            if p3 >= v.len() || v[p3] != '=' {
                return None;
            }
            let p4 = scan_spaces(v, p3 + 1);
            let b = scan_value(v, p4);
            proof {
                lemma_run_end(v@, p3 as int + 1, sp_fn());
            }
            Some(b)
        },
    }
}

/// The leftmost match at or after `from`: its start and end, or None.
pub fn find_match(v: &Vec<char>, kind: PatKind, name: &Vec<char>, from: usize) -> (r: Option<
    (usize, usize),
>)
    requires
        from <= v.len(),
    ensures
        match r {
            Some((a, b)) => {
                &&& find_pat(v@, kind, name@, from as int) == a as int
                &&& match_end(v@, kind, name@, a as int) == b as int
                &&& from <= a < b <= v.len()
            },
            None => find_pat(v@, kind, name@, from as int) == -1,
        },
{
    let mut i = from;
    while i < v.len()
        invariant
            from <= i <= v.len(),
            forall|k: int| from <= k < i ==> match_end(v@, kind, name@, k) < 0,
        decreases v.len() - i,
    {
        match match_at(v, kind, name, i) {
            Some(b) => {
                proof {
                    lemma_first_where_is(v@.len() as int, from as int,
                        match_pred(v@, kind, name@), i as int);
                }
                return Some((i, b));
            },
            None => {
                i = i + 1;
            },
        }
    }
    proof {
        lemma_first_where_is(v@.len() as int, from as int, match_pred(v@, kind, name@),
            v@.len() as int);
    }
    None
}

/// Appends `v[from..to]` to `out`.
pub fn copy_range(out: &mut Vec<char>, v: &Vec<char>, from: usize, to: usize)
    requires
        from <= to <= v.len(),
    ensures
        final (out)@ == old(out)@ + v@.subrange(from as int, to as int),
{
    let mut j = from;
    while j < to
        invariant
            from <= j <= to <= v.len(),
            out@ =~= old(out)@ + v@.subrange(from as int, j as int),
        decreases to - j,
    {
        out.push(v[j]);
        j = j + 1;
        proof {
            assert(out@ =~= old(out)@ + v@.subrange(from as int, j as int));
        }
    }
    proof {
        assert(out@ =~= old(out)@ + v@.subrange(from as int, to as int));
    }
}

/// One rewrite pass: removes every match of the rule, scanning left to
/// right and resuming after each removed match.
pub fn strip_pass(v: &Vec<char>, kind: PatKind, name: &Vec<char>) -> (r: Vec<char>)
    ensures
        r@ == strip_pat(v@, kind, name@),
{
    let mut out: Vec<char> = Vec::new();
    let mut pos: usize = 0;
    loop
        invariant_except_break
            pos <= v.len(),
            strip_pat(v@, kind, name@) == out@ + strip_from(v@, kind, name@, pos as int),
        ensures
            strip_pat(v@, kind, name@) == out@,
        decreases v.len() - pos,
    {
        match find_match(v, kind, name, pos) {
            None => {
                proof {
                    assert(strip_from(v@, kind, name@, pos as int) == v@.subrange(pos as int,
                        v@.len() as int));
                }
                copy_range(&mut out, v, pos, v.len());
                proof {
                    assert(strip_pat(v@, kind, name@) =~= out@);
                }
                break;
            },
            Some((a, b)) => {
                copy_range(&mut out, v, pos, a);
                proof {
                    assert(strip_from(v@, kind, name@, pos as int) == v@.subrange(pos as int,
                        a as int) + strip_from(v@, kind, name@, b as int));
                }
                pos = b;
            },
        }
    }
    out
}

} // verus!
