//! Character classes, UTF-8 byte accounting, and conversions between
//! `&str`/`String` and `Vec<char>`, on which the sanitizer and the
//! configuration parsing are built.

use vstd::prelude::*;

verus! {

/// ASCII lowercasing of a single character; other characters are unchanged.
pub open spec fn lower_char(c: char) -> char {
    if 'A' <= c && c <= 'Z' {
        (((c as u8) + 32) as char)
    } else {
        c
    }
}

/// Executable ASCII lowercasing, equal to `lower_char`.
pub fn to_lower_char(c: char) -> (r: char)
    ensures
        r == lower_char(c),
{
    if 'A' <= c && c <= 'Z' {
        let b: u8 = (c as u8) + 32;
        b as char
    } else {
        c
    }
}

/// The Unicode whitespace characters (the White_Space property).
pub open spec fn is_space(c: char) -> bool {
    c == '\u{0009}' || c == '\u{000A}' || c == '\u{000B}' || c == '\u{000C}' || c == '\u{000D}'
        || c == '\u{0020}' || c == '\u{0085}' || c == '\u{00A0}' || c == '\u{1680}' || c
        == '\u{2000}' || c == '\u{2001}' || c == '\u{2002}' || c == '\u{2003}' || c == '\u{2004}'
        || c == '\u{2005}' || c == '\u{2006}' || c == '\u{2007}' || c == '\u{2008}' || c
        == '\u{2009}' || c == '\u{200A}' || c == '\u{2028}' || c == '\u{2029}' || c == '\u{202F}'
        || c == '\u{205F}' || c == '\u{3000}'
}

/// Executable whitespace test, equal to `is_space`.
pub fn is_space_char(c: char) -> (r: bool)
    ensures
        r == is_space(c),
{
    c == '\u{0009}' || c == '\u{000A}' || c == '\u{000B}' || c == '\u{000C}' || c == '\u{000D}'
        || c == '\u{0020}' || c == '\u{0085}' || c == '\u{00A0}' || c == '\u{1680}' || c
        == '\u{2000}' || c == '\u{2001}' || c == '\u{2002}' || c == '\u{2003}' || c == '\u{2004}'
        || c == '\u{2005}' || c == '\u{2006}' || c == '\u{2007}' || c == '\u{2008}' || c
        == '\u{2009}' || c == '\u{200A}' || c == '\u{2028}' || c == '\u{2029}' || c == '\u{202F}'
        || c == '\u{205F}' || c == '\u{3000}'
}

/// ASCII word characters, as they appear in attribute names.
pub open spec fn is_word(c: char) -> bool {
    ('a' <= c && c <= 'z') || ('A' <= c && c <= 'Z') || ('0' <= c && c <= '9') || c == '_'
}

/// Executable word-character test, equal to `is_word`.
pub fn is_word_char(c: char) -> (r: bool)
    ensures
        r == is_word(c),
{
    ('a' <= c && c <= 'z') || ('A' <= c && c <= 'Z') || ('0' <= c && c <= '9') || c == '_'
}

/// ASCII decimal digit test.
pub open spec fn is_digit(c: char) -> bool {
    '0' <= c && c <= '9'
}

/// The number of bytes the UTF-8 encoding of a character takes.
pub open spec fn utf8_len(c: char) -> int {
    let u = c as u32;
    if u < 0x80 {
        1
    } else if u < 0x800 {
        2
    } else if u < 0x10000 {
        3
    } else {
        4
    }
}

/// Executable UTF-8 width of a character, equal to `utf8_len`.
pub fn utf8_len_of(c: char) -> (r: usize)
    ensures
        r as int == utf8_len(c),
        1 <= r <= 4,
{
    let u = c as u32;
    if u < 0x80 {
        1
    } else if u < 0x800 {
        2
    } else if u < 0x10000 {
        3
    } else {
        4
    }
}

/// The UTF-8 byte length of a character sequence.
pub open spec fn bytes_len(s: Seq<char>) -> int
    decreases s.len(),
{
    if s.len() == 0 {
        0
    } else {
        bytes_len(s.drop_last()) + utf8_len(s.last())
    }
}

pub proof fn lemma_bytes_len_nonneg(s: Seq<char>)
    ensures
        bytes_len(s) >= 0,
        s.len() <= bytes_len(s) <= 4 * s.len(),
    decreases s.len(),
{
    if s.len() > 0 {
        lemma_bytes_len_nonneg(s.drop_last());
    }
}

pub proof fn lemma_bytes_len_take_succ(s: Seq<char>, i: int)
    requires
        0 <= i < s.len(),
    ensures
        bytes_len(s.take(i + 1)) == bytes_len(s.take(i)) + utf8_len(s[i]),
{
    assert(s.take(i + 1).drop_last() =~= s.take(i));
    assert(s.take(i + 1).last() == s[i]);
}

pub proof fn lemma_bytes_len_concat(a: Seq<char>, b: Seq<char>)
    ensures
        bytes_len(a + b) == bytes_len(a) + bytes_len(b),
    decreases b.len(),
{
    if b.len() == 0 {
        assert(a + b =~= a);
    } else {
        assert((a + b).drop_last() =~= a + b.drop_last());
        assert((a + b).last() == b.last());
        lemma_bytes_len_concat(a, b.drop_last());
    }
}

/// The characters of a string, as a vector.
pub fn chars_of(s: &str) -> (r: Vec<char>)
    ensures
        r@ == s@,
{
    broadcast use vstd::string::group_string_axioms;

    let n = s.unicode_len();
    let mut out: Vec<char> = Vec::new();
    let mut i: usize = 0;
    while i < n
        invariant
            n == s@.len(),
            0 <= i <= n,
            out@ =~= s@.take(i as int),
        decreases n - i,
    {
        let c = s.get_char(i);
        out.push(c);
        i = i + 1;
        proof {
            assert(out@ =~= s@.take(i as int));
        }
    }
    proof {
        assert(out@ =~= s@);
    }
    out
}

/// Relies on `String::push`: appends one character to the string.
#[verifier::external_body]
fn push_char(s: &mut String, c: char)
    ensures
        final (s)@ == old(s)@.push(c),
{
    s.push(c)
}

/// A `String` holding exactly the given characters.
pub fn string_of(v: &Vec<char>) -> (r: String)
    ensures
        r@ == v@,
{
    let mut out = String::new();
    let mut i: usize = 0;
    while i < v.len()
        invariant
            0 <= i <= v.len(),
            out@ =~= v@.take(i as int),
        decreases v.len() - i,
    {
        push_char(&mut out, v[i]);
        i = i + 1;
        proof {
            assert(out@ =~= v@.take(i as int));
        }
    }
    proof {
        assert(out@ =~= v@);
    }
    out
}

/// The first index at or after `from` whose character fails `p`, or the
/// length of the sequence if every later character satisfies `p`.
pub open spec fn run_end(s: Seq<char>, from: int, p: spec_fn(char) -> bool) -> int
    decreases s.len() - from when 0 <= from <= s.len()
{
    if from >= s.len() {
        s.len() as int
    } else if p(s[from]) {
        run_end(s, from + 1, p)
    } else {
        from
    }
}

pub proof fn lemma_run_end(s: Seq<char>, from: int, p: spec_fn(char) -> bool)
    requires
        0 <= from <= s.len(),
    ensures
        from <= run_end(s, from, p) <= s.len(),
        forall|k: int| from <= k < run_end(s, from, p) ==> p(s[k]),
        run_end(s, from, p) < s.len() ==> !p(s[run_end(s, from, p)]),
    decreases s.len() - from,
{
    if from < s.len() && p(s[from]) {
        lemma_run_end(s, from + 1, p);
    }
}

pub proof fn lemma_run_end_is(s: Seq<char>, from: int, p: spec_fn(char) -> bool, j: int)
    requires
        0 <= from <= j <= s.len(),
        forall|k: int| from <= k < j ==> p(s[k]),
        j < s.len() ==> !p(s[j]),
    ensures
        run_end(s, from, p) == j,
    decreases s.len() - from,
{
    if from < s.len() && p(s[from]) {
        lemma_run_end_is(s, from + 1, p, j);
    }
}


/// `bytes_len` is the length of the real UTF-8 encoding, so `str::len`
/// agrees with it on every string.
pub proof fn lemma_bytes_len_is_utf8(s: Seq<char>)
    ensures
        bytes_len(s) == vstd::utf8::encode_utf8(s).len(),
    decreases s.len(),
{
    if s.len() > 0 {
        let rest = s.drop_first();
        let one = seq![s[0]];
        assert(s =~= one + rest);
        lemma_bytes_len_concat(one, rest);
        assert(one.drop_last() =~= Seq::<char>::empty());
        assert(one.len() == 1 && one.last() == s[0]);
        assert(bytes_len(Seq::<char>::empty()) == 0);
        assert(bytes_len(one) == bytes_len(one.drop_last()) + utf8_len(one.last()));
        assert(bytes_len(one) == utf8_len(s[0]));
        vstd::utf8::char_is_scalar(s[0]);
        let u = s[0] as u32;
        if vstd::utf8::has_width_1_encoding(u) {
            assert(vstd::utf8::encode_scalar(u).len() == 1);
        } else if vstd::utf8::has_width_2_encoding(u) {
            assert(vstd::utf8::encode_scalar(u).len() == 2);
        } else if vstd::utf8::has_width_3_encoding(u) {
            assert(vstd::utf8::encode_scalar(u).len() == 3);
        } else {
            assert(vstd::utf8::encode_scalar(u).len() == 4);
        }
        assert(vstd::utf8::encode_scalar(u).len() == utf8_len(s[0]));
        lemma_bytes_len_is_utf8(rest);
    }
}

} // verus!
