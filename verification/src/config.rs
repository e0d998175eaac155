//! The local-configuration logic: normalizing values read from the
//! environment and from configuration files, assembling candidate file
//! paths, and reading the owner's name out of an identity file.  Paths are
//! held as plain text; the caller does all file and environment access and
//! hands the values in.

use vstd::prelude::*;
use vstd::string::StringExecFns;
use crate::text::{chars_of, string_of, run_end, lemma_run_end, lemma_run_end_is, lower_char};
use crate::sanitize::{trim_spec, trim_exec};
use crate::pattern::copy_range;
use crate::json::{
    json_parse, json_ok_of, json_pointer_str, json_pointer_u64, json_pointer_bool,
    json_array_len, pointer_str_of, pointer_u64_of, pointer_bool_of, array_len_at,
};
use crate::transport::dec_digits;
use crate::discovery::parse_u16;

verus! {

/// Whether one of the held paths reads as the candidate.
pub open spec fn contains_path(ps: Seq<Seq<char>>, c: Seq<char>) -> bool {
    exists|i: int| 0 <= i < ps.len() && #[trigger] ps[i] == c
}

/// The list with the candidate appended unless an equal entry is already
/// held.
pub open spec fn push_unique_v(ps: Seq<Seq<char>>, c: Seq<char>) -> Seq<Seq<char>> {
    if contains_path(ps, c) {
        ps
    } else {
        ps.push(c)
    }
}

/// Appends the candidate unless an equal path is already in the list.
pub fn push_unique(paths: &mut Vec<String>, candidate: String)
    ensures
        final (paths).deep_view() == push_unique_v(old(paths).deep_view(), candidate@),
{
    let mut i: usize = 0;
    while i < paths.len()
        invariant
            0 <= i <= paths@.len(),
            forall|k: int| 0 <= k < i ==> #[trigger] paths@[k]@ != candidate@,
        decreases paths.len() - i,
    {
        if paths[i] == candidate {
            proof {
                assert(paths.deep_view()[i as int] == candidate@);
                assert(contains_path(paths.deep_view(), candidate@));
            }
            return ;
        }
        i = i + 1;
    }
    proof {
        assert(forall|k: int|
            0 <= k < paths.deep_view().len() ==> #[trigger] paths.deep_view()[k] != candidate@);
        assert(!contains_path(paths.deep_view(), candidate@));
    }
    let ghost prev = paths.deep_view();
    paths.push(candidate);
    proof {
        assert(paths.deep_view() =~= push_unique_v(prev, candidate@));
    }
}

/// A `String` holding the trimmed text.
fn trim_string(s: &str) -> (r: String)
    ensures
        r@ == trim_spec(s@),
{
    let v = chars_of(s);
    let t = trim_exec(&v);
    string_of(&t)
}

/// The value trimmed of surrounding whitespace; None when nothing is left.
pub fn normalize_non_empty(value: &str) -> (r: Option<String>)
    ensures
        match r {
            Some(s) => s@ == trim_spec(value@) && s@.len() > 0,
            None => trim_spec(value@).len() == 0,
        },
{
    let t = trim_string(value);
    if t.as_str().is_empty() {
        None
    } else {
        Some(t)
    }
}

/// Whether `p` is a prefix of `s`.
pub open spec fn has_prefix(s: Seq<char>, p: Seq<char>) -> bool {
    p.len() <= s.len() && s.take(p.len() as int) == p
}

/// Executable prefix test, equal to `has_prefix`.
pub(crate) fn starts_with_chars(v: &Vec<char>, p: &Vec<char>) -> (r: bool)
    ensures
        r == has_prefix(v@, p@),
{
    if p.len() > v.len() {
        proof {
            assert(!has_prefix(v@, p@));
        }
        return false;
    }
    let mut i: usize = 0;
    while i < p.len()
        invariant
            p@.len() <= v@.len(),
            0 <= i <= p@.len(),
            forall|k: int| 0 <= k < i ==> v@[k] == p@[k],
        decreases p.len() - i,
    {
        if v[i] != p[i] {
            proof {
                assert(v@.take(p@.len() as int)[i as int] != p@[i as int]);
            }
            return false;
        }
        i = i + 1;
    }
    proof {
        assert(v@.take(p@.len() as int) =~= p@);
    }
    true
}

/// What a gateway address normalizes to: the trimmed text when it already
/// carries a socket scheme, the socket form of a web scheme, and nothing
/// for anything else.
pub open spec fn normalize_gateway_url_spec(raw: Seq<char>) -> Option<Seq<char>> {
    let t = trim_spec(raw);
    if t.len() == 0 {
        None
    } else if has_prefix(t, "ws://"@) || has_prefix(t, "wss://"@) {
        Some(t)
    } else if has_prefix(t, "http://"@) {
        Some("ws://"@ + t.subrange(7, t.len() as int))
    } else if has_prefix(t, "https://"@) {
        Some("wss://"@ + t.subrange(8, t.len() as int))
    } else {
        None
    }
}

/// Normalizes a gateway address to its socket form.
pub fn normalize_gateway_url(raw: &str) -> (r: Option<String>)
    ensures
        match r {
            Some(s) => normalize_gateway_url_spec(raw@) == Some(s@),
            None => normalize_gateway_url_spec(raw@) is None,
        },
{
    let v0 = chars_of(raw);
    let t = trim_exec(&v0);
    if t.len() == 0 {
        return None;
    }
    let ws = chars_of("ws://");
    let wss = chars_of("wss://");
    let http = chars_of("http://");
    let https = chars_of("https://");
    proof {
        reveal_strlit("ws://");
        reveal_strlit("wss://");
        reveal_strlit("http://");
        reveal_strlit("https://");
    }
    if starts_with_chars(&t, &ws) || starts_with_chars(&t, &wss) {
        return Some(string_of(&t));
    }
    if starts_with_chars(&t, &http) {
        let mut out = chars_of("ws://");
        copy_range(&mut out, &t, 7, t.len());
        proof {
            assert(out@ == "ws://"@ + t@.subrange(7, t@.len() as int));
        }
        return Some(string_of(&out));
    }
    if starts_with_chars(&t, &https) {
        let mut out = chars_of("wss://");
        copy_range(&mut out, &t, 8, t.len());
        proof {
            assert(out@ == "wss://"@ + t@.subrange(8, t@.len() as int));
        }
        return Some(string_of(&out));
    }
    None
}

/// The candidates folded left to right into an initially empty list, each
/// kept only on its first occurrence.
pub open spec fn dedup_v(acc: Seq<Seq<char>>, items: Seq<Seq<char>>) -> Seq<Seq<char>>
    decreases items.len(),
{
    if items.len() == 0 {
        acc
    } else {
        dedup_v(push_unique_v(acc, items[0]), items.drop_first())
    }
}

/// The configuration files found under mounted machine images, in
/// discovery order with duplicates dropped; the caller enumerates the
/// mounts and hands in the candidate files it found.
pub fn find_wsl_config_paths(existing: Vec<String>) -> (r: Vec<String>)
    ensures
        r.deep_view() == dedup_v(Seq::empty(), existing.deep_view()),
{
    let mut out: Vec<String> = Vec::new();
    let mut i: usize = 0;
    proof {
        assert(existing.deep_view().skip(0) =~= existing.deep_view());
        assert(out.deep_view() =~= Seq::<Seq<char>>::empty());
    }
    while i < existing.len()
        invariant
            0 <= i <= existing@.len(),
            dedup_v(Seq::empty(), existing.deep_view()) == dedup_v(
                out.deep_view(),
                existing.deep_view().skip(i as int),
            ),
        decreases existing.len() - i,
    {
        proof {
            assert(existing.deep_view().skip(i as int)[0] == existing.deep_view()[i as int]);
            assert(existing.deep_view().skip(i as int).drop_first() =~= existing.deep_view().skip(
                i as int + 1));
        }
        push_unique(&mut out, existing[i].clone());
        i = i + 1;
    }
    proof {
        assert(existing.deep_view().skip(existing@.len() as int).len() == 0);
    }
    out
}

pub open spec fn is_sep(c: char) -> bool {
    c == '/' || c == '\\'
}

/// Forward slashes replaced by backslashes.
pub open spec fn bs_normalize(s: Seq<char>) -> Seq<char> {
    Seq::new(
        s.len(),
        |i: int|
            if s[i] == '/' {
                '\\'
            } else {
                s[i]
            },
    )
}

/// Executable slash replacement, equal to `bs_normalize`.
fn bs_normalize_exec(v: &Vec<char>) -> (r: Vec<char>)
    ensures
        r@ == bs_normalize(v@),
{
    let mut out: Vec<char> = Vec::new();
    let mut i: usize = 0;
    while i < v.len()
        invariant
            0 <= i <= v@.len(),
            out@ =~= bs_normalize(v@).take(i as int),
        decreases v.len() - i,
    {
        let c = v[i];
        if c == '/' {
            out.push('\\');
        } else {
            out.push(c);
        }
        i = i + 1;
        proof {
            assert(out@ =~= bs_normalize(v@).take(i as int));
        }
    }
    proof {
        assert(out@ =~= bs_normalize(v@));
    }
    out
}

pub open spec fn not_slash_fn() -> spec_fn(char) -> bool {
    |c: char| c != '/'
}

/// The mounted-image form of a machine-local path:
/// `\\wsl$\<distro>\<path>`, with leading slashes dropped from the path
/// and the rest rewritten to backslashes; a bare `\\wsl$\<distro>` when
/// nothing is left.
pub open spec fn to_wsl_unc_path_spec(distro: Seq<char>, linux_path: Seq<char>) -> Seq<char> {
    let st = run_end(linux_path, 0, |c: char| c == '/');
    let rel = bs_normalize(linux_path.subrange(st, linux_path.len() as int));
    if rel.len() == 0 {
        "\\\\wsl$\\"@ + distro
    } else {
        "\\\\wsl$\\"@ + distro + seq!['\\'] + rel
    }
}

/// Builds the mounted-image form of a machine-local path.
pub fn to_wsl_unc_path(distro: &str, linux_path: &str) -> (r: String)
    ensures
        r@ == to_wsl_unc_path_spec(distro@, linux_path@),
{
    let lp = chars_of(linux_path);
    let mut st: usize = 0;
    while st < lp.len() && lp[st] == '/'
        invariant
            0 <= st <= lp@.len(),
            forall|k: int| 0 <= k < st ==> lp@[k] == '/',
        decreases lp.len() - st,
    {
        st = st + 1;
    }
    proof {
        lemma_run_end_is(lp@, 0, |c: char| c == '/', st as int);
    }
    let mut rel: Vec<char> = Vec::new();
    let mut i = st;
    while i < lp.len()
        invariant
            st <= i <= lp@.len(),
            rel@ =~= bs_normalize(lp@.subrange(st as int, lp@.len() as int)).take(i - st),
        decreases lp.len() - i,
    {
        let c = lp[i];
        if c == '/' {
            rel.push('\\');
        } else {
            rel.push(c);
        }
        i = i + 1;
        proof {
            assert(rel@ =~= bs_normalize(lp@.subrange(st as int, lp@.len() as int)).take(
                i - st));
        }
    }
    proof {
        assert(rel@ =~= bs_normalize(lp@.subrange(st as int, lp@.len() as int)));
    }
    let mut out = chars_of("\\\\wsl$\\");
    let dv = chars_of(distro);
    copy_range(&mut out, &dv, 0, dv.len());
    proof {
        assert(dv@.subrange(0, dv@.len() as int) =~= dv@);
    }
    if rel.len() == 0 {
        proof {
            assert(out@ =~= to_wsl_unc_path_spec(distro@, linux_path@));
        }
        string_of(&out)
    } else {
        out.push('\\');
        copy_range(&mut out, &rel, 0, rel.len());
        proof {
            assert(rel@.subrange(0, rel@.len() as int) =~= rel@);
            assert(out@ =~= to_wsl_unc_path_spec(distro@, linux_path@));
        }
        string_of(&out)
    }
}


pub open spec fn not_bs_fn() -> spec_fn(char) -> bool {
    |c: char| c != '\\'
}

/// Case-insensitive equality with a lowercase literal.
pub open spec fn ci_equal(s: Seq<char>, lit: Seq<char>) -> bool {
    s.len() == lit.len() && crate::pattern::ci_match_at(s, lit, 0)
}

/// The machine name of a mounted-image path (`\\wsl$\<distro>\...`),
/// matched case-insensitively with either slash; None for any other path.
pub open spec fn wsl_distro_spec(path: Seq<char>) -> Option<Seq<char>> {
    let n = bs_normalize(path);
    let pl = "\\\\wsl$\\"@.len() as int;
    if !crate::pattern::ci_match_at(n, "\\\\wsl$\\"@, 0) {
        None
    } else {
        let e = run_end(n, pl, not_bs_fn());
        let t = trim_spec(n.subrange(pl, e));
        if t.len() == 0 {
            None
        } else {
            Some(t)
        }
    }
}

/// Reads the machine name out of a mounted-image path.
pub fn wsl_distro_from_unc_path(path: &str) -> (r: Option<String>)
    ensures
        match r {
            Some(s) => wsl_distro_spec(path@) == Some(s@),
            None => wsl_distro_spec(path@) is None,
        },
{
    let v0 = chars_of(path);
    let n = bs_normalize_exec(&v0);
    let prefix = chars_of("\\\\wsl$\\");
    proof {
        reveal_strlit("\\\\wsl$\\");
    }
    if !crate::pattern::ci_match(&n, &prefix, 0) {
        return None;
    }
    let pl = prefix.len();
    let mut e = pl;
    while e < n.len() && n[e] != '\\'
        invariant
            pl <= e <= n@.len(),
            forall|k: int| pl <= k < e ==> n@[k] != '\\',
        decreases n.len() - e,
    {
        e = e + 1;
    }
    proof {
        lemma_run_end_is(n@, pl as int, not_bs_fn(), e as int);
    }
    let mut seg: Vec<char> = Vec::new();
    copy_range(&mut seg, &n, pl, e);
    let tr = trim_exec(&seg);
    if tr.len() == 0 {
        None
    } else {
        Some(string_of(&tr))
    }
}

/// The user name in a mounted-image path: the segment right after the
/// first segment reading `home` (case-insensitively), trimmed; None when
/// there is no such segment or it is empty.
pub open spec fn user_after_home(s: Seq<char>, from: int) -> Option<Seq<char>>
    decreases s.len() - from when 0 <= from <= s.len() via user_after_home_decreases
{
    let e = run_end(s, from, not_bs_fn());
    let seg = s.subrange(from, e);
    if ci_equal(seg, "home"@) {
        if e >= s.len() {
            None
        } else {
            let e2 = run_end(s, e + 1, not_bs_fn());
            let u = trim_spec(s.subrange(e + 1, e2));
            if u.len() == 0 {
                None
            } else {
                Some(u)
            }
        }
    } else if e >= s.len() {
        None
    } else {
        user_after_home(s, e + 1)
    }
}

#[via_fn]
proof fn user_after_home_decreases(s: Seq<char>, from: int) {
    lemma_run_end(s, from, not_bs_fn());
}

/// What `wsl_user_from_unc_path` returns.
pub open spec fn wsl_user_spec(path: Seq<char>) -> Option<Seq<char>> {
    let n = bs_normalize(path);
    let pl = "\\\\wsl$\\"@.len() as int;
    if !crate::pattern::ci_match_at(n, "\\\\wsl$\\"@, 0) {
        None
    } else {
        user_after_home(n, pl)
    }
}

/// Executable scan for the backslash-segment end, equal to `run_end` with
/// `not_bs_fn`.
fn scan_to_bs(n: &Vec<char>, from: usize) -> (r: usize)
    requires
        from <= n.len(),
    ensures
        r as int == run_end(n@, from as int, not_bs_fn()),
        from <= r <= n.len(),
{
    let mut e = from;
    while e < n.len() && n[e] != '\\'
        invariant
            from <= e <= n@.len(),
            forall|k: int| from <= k < e ==> n@[k] != '\\',
        decreases n.len() - e,
    {
        e = e + 1;
    }
    proof {
        lemma_run_end_is(n@, from as int, not_bs_fn(), e as int);
    }
    e
}

/// Reads the user name out of a mounted-image home path.
pub fn wsl_user_from_unc_path(path: &str) -> (r: Option<String>)
    ensures
        match r {
            Some(s) => wsl_user_spec(path@) == Some(s@),
            None => wsl_user_spec(path@) is None,
        },
{
    let v0 = chars_of(path);
    let n = bs_normalize_exec(&v0);
    let prefix = chars_of("\\\\wsl$\\");
    proof {
        reveal_strlit("\\\\wsl$\\");
    }
    if !crate::pattern::ci_match(&n, &prefix, 0) {
        return None;
    }
    let home = chars_of("home");
    let mut from = prefix.len();
    proof {
        assert(crate::pattern::ci_match_at(n@, "\\\\wsl$\\"@, 0));
    }
    loop
        invariant
            0 <= from <= n@.len(),
            home@ == "home"@,
            wsl_user_spec(path@) == user_after_home(n@, from as int),
        decreases n@.len() - from,
    {
        let e = scan_to_bs(&n, from);
        let mut seg: Vec<char> = Vec::new();
        copy_range(&mut seg, &n, from, e);
        let seg_is_home = seg.len() == home.len() && crate::pattern::ci_match(&seg, &home, 0);
        if seg_is_home {
            proof {
                assert(ci_equal(n@.subrange(from as int, e as int), "home"@));
            }
            if e >= n.len() {
                return None;
            }
            let e2 = scan_to_bs(&n, e + 1);
            let mut seg2: Vec<char> = Vec::new();
            copy_range(&mut seg2, &n, e + 1, e2);
            let u = trim_exec(&seg2);
            if u.len() == 0 {
                return None;
            }
            return Some(string_of(&u));
        }
        proof {
            assert(!ci_equal(n@.subrange(from as int, e as int), "home"@));
        }
        if e >= n.len() {
            return None;
        }
        from = e + 1;
    }
}

/// A directory entry path: the base, a slash, and the entry's name.
pub open spec fn joined(base: Seq<char>, name: Seq<char>) -> Seq<char> {
    base + seq!['/'] + name
}

/// A `String` holding the base, a slash, and the name.
fn join_path(base: &str, name: &str) -> (r: String)
    ensures
        r@ == joined(base@, name@),
{
    let mut out = chars_of(base);
    out.push('/');
    let nv = chars_of(name);
    copy_range(&mut out, &nv, 0, nv.len());
    proof {
        assert(nv@.subrange(0, nv@.len() as int) =~= nv@);
        assert(out@ =~= joined(base@, name@));
    }
    string_of(&out)
}

/// The identity files a directory may hold, appended without duplicates.
pub open spec fn identity_file_candidates(ps: Seq<Seq<char>>, base: Seq<char>) -> Seq<Seq<char>> {
    push_unique_v(push_unique_v(ps, joined(base, "IDENTITY.md"@)), joined(base, "identity.md"@))
}

/// Appends the two identity file names a directory may hold.
pub fn push_identity_file_candidates(paths: &mut Vec<String>, base_dir: &str)
    ensures
        final (paths).deep_view() == identity_file_candidates(old(paths).deep_view(), base_dir@),
{
    push_unique(paths, join_path(base_dir, "IDENTITY.md"));
    push_unique(paths, join_path(base_dir, "identity.md"));
}

/// Where the file name of a path starts: just after its last separator.
pub open spec fn name_start(s: Seq<char>) -> int
    decreases s.len(),
{
    if s.len() == 0 {
        0
    } else if is_sep(s.last()) {
        s.len() as int
    } else {
        name_start(s.drop_last())
    }
}

/// The last dot at or after `lo`, or -1 when there is none.
pub open spec fn last_dot_after(s: Seq<char>, lo: int) -> int
    decreases s.len(),
{
    if s.len() == 0 || s.len() <= lo {
        -1
    } else if s.last() == '.' {
        s.len() - 1
    } else {
        last_dot_after(s.drop_last(), lo)
    }
}

/// Whether the path names a markdown file: its file name carries an
/// extension — a dot after the name's first character — reading `md` in
/// any case.
pub open spec fn is_markdown_path(s: Seq<char>) -> bool {
    let ns = name_start(s);
    let d = last_dot_after(s, ns + 1);
    d >= 0 && ci_equal(s.subrange(d + 1, s.len() as int), "md"@)
}

proof fn lemma_name_start_is(s: Seq<char>, j: int)
    requires
        0 <= j <= s.len(),
        j > 0 ==> is_sep(s[j - 1]),
        forall|k: int| j <= k < s.len() ==> !is_sep(#[trigger] s[k]),
    ensures
        name_start(s) == j,
    decreases s.len(),
{
    if s.len() > 0 && !is_sep(s.last()) {
        assert(forall|k: int| 0 <= k < s.len() - 1 ==> s.drop_last()[k] == s[k]);
        lemma_name_start_is(s.drop_last(), j);
    }
}

pub proof fn lemma_last_dot_is(s: Seq<char>, lo: int, d: int)
    requires
        0 <= lo,
        -1 <= d,
        d == -1 ==> forall|k: int| lo <= k < s.len() ==> s[k] != '.',
        d >= 0 ==> lo <= d < s.len() && s[d] == '.' && (forall|k: int|
            d < k < s.len() ==> s[k] != '.'),
    ensures
        last_dot_after(s, lo) == d,
    decreases s.len(),
{
    if s.len() == 0 || s.len() <= lo {
        assert(last_dot_after(s, lo) == -1);
        assert(d == -1);
    } else if s.last() == '.' {
        assert(s[s.len() - 1] == '.');
        assert(last_dot_after(s, lo) == s.len() - 1);
        assert(d == s.len() - 1);
    } else {
        assert(s[s.len() - 1] != '.');
        assert(forall|k: int| 0 <= k < s.len() - 1 ==> s.drop_last()[k] == s[k]);
        assert(d < s.len() - 1);
        lemma_last_dot_is(s.drop_last(), lo, d);
        assert(last_dot_after(s, lo) == last_dot_after(s.drop_last(), lo));
    }
}

/// Executable markdown test, equal to `is_markdown_path`.
fn is_markdown(v: &Vec<char>) -> (r: bool)
    ensures
        r == is_markdown_path(v@),
{
    let mut ns = v.len();
    while ns > 0 && !(v[ns - 1] == '/' || v[ns - 1] == '\\')
        invariant
            0 <= ns <= v@.len(),
            forall|k: int| ns <= k < v@.len() ==> !is_sep(#[trigger] v@[k]),
        decreases ns,
    {
        ns = ns - 1;
    }
    proof {
        lemma_name_start_is(v@, ns as int);
    }
    let mut j = v.len();
    while j > 0 && j - 1 > ns && v[j - 1] != '.'
        invariant
            0 <= j <= v@.len(),
            ns <= v@.len(),
            forall|k: int| j <= k < v@.len() ==> v@[k] != '.',
        decreases j,
    {
        j = j - 1;
    }
    if !(j > 0 && j - 1 > ns) {
        proof {
            assert(forall|k: int| ns as int + 1 <= k < v@.len() ==> v@[k] != '.');
            lemma_last_dot_is(v@, ns as int + 1, -1);
        }
        return false;
    }
    proof {
        lemma_last_dot_is(v@, ns as int + 1, j - 1);
    }
    let d = j - 1;
    let mut ext: Vec<char> = Vec::new();
    copy_range(&mut ext, v, d + 1, v.len());
    let md = chars_of("md");
    let r = ext.len() == md.len() && crate::pattern::ci_match(&ext, &md, 0);
    proof {
        assert(ext@ == v@.subrange(d + 1, v@.len() as int));
        assert(r == ci_equal(v@.subrange(d + 1, v@.len() as int), "md"@));
    }
    r
}

/// Where a workspace setting sends the identity search: the file itself
/// when it names a markdown file, else the two identity files under it.
pub open spec fn workspace_identity_candidates(ps: Seq<Seq<char>>, w: Seq<char>) -> Seq<
    Seq<char>,
> {
    if is_markdown_path(w) {
        push_unique_v(ps, w)
    } else {
        identity_file_candidates(ps, w)
    }
}

/// Appends the identity files a workspace setting points at.
pub fn push_workspace_identity_candidates(paths: &mut Vec<String>, workspace: &str)
    ensures
        final (paths).deep_view() == workspace_identity_candidates(
            old(paths).deep_view(),
            workspace@,
        ),
{
    let v = chars_of(workspace);
    if is_markdown(&v) {
        push_unique(paths, string_of(&v));
    } else {
        push_identity_file_candidates(paths, workspace);
    }
}


/// Markup noise stripped from a key before it is compared.
pub open spec fn noise_char(c: char) -> bool {
    c == '*' || c == '`' || c == '_' || c == '#'
}

/// The text with every noise character removed, from `i` on.
pub open spec fn remove_noise_from(s: Seq<char>, i: int) -> Seq<char>
    decreases s.len() - i when 0 <= i <= s.len()
{
    if i >= s.len() {
        Seq::empty()
    } else if noise_char(s[i]) {
        remove_noise_from(s, i + 1)
    } else {
        seq![s[i]] + remove_noise_from(s, i + 1)
    }
}

/// Executable noise removal, equal to `remove_noise_from` at 0.
fn remove_noise_exec(v: &Vec<char>) -> (r: Vec<char>)
    ensures
        r@ == remove_noise_from(v@, 0),
{
    let mut out: Vec<char> = Vec::new();
    let mut i: usize = 0;
    while i < v.len()
        invariant
            0 <= i <= v@.len(),
            remove_noise_from(v@, 0) == out@ + remove_noise_from(v@, i as int),
        decreases v.len() - i,
    {
        let c = v[i];
        let ghost prev = out@;
        if !(c == '*' || c == '`' || c == '_' || c == '#') {
            out.push(c);
            proof {
                assert(out@ =~= prev + seq![c]);
                assert((prev + seq![c]) + remove_noise_from(v@, i as int + 1) =~= prev + (seq![c]
                    + remove_noise_from(v@, i as int + 1)));
            }
        }
        i = i + 1;
    }
    proof {
        assert(remove_noise_from(v@, v@.len() as int) =~= Seq::<char>::empty());
        assert(remove_noise_from(v@, 0) =~= out@);
    }
    out
}

/// Every character ASCII-lowercased.
pub open spec fn lower_seq(s: Seq<char>) -> Seq<char> {
    Seq::new(s.len(), |i: int| lower_char(s[i]))
}

/// Executable lowercasing, equal to `lower_seq`.
fn lower_exec(v: &Vec<char>) -> (r: Vec<char>)
    ensures
        r@ == lower_seq(v@),
{
    let mut out: Vec<char> = Vec::new();
    let mut i: usize = 0;
    while i < v.len()
        invariant
            0 <= i <= v@.len(),
            out@ =~= lower_seq(v@).take(i as int),
        decreases v.len() - i,
    {
        out.push(crate::text::to_lower_char(v[i]));
        i = i + 1;
        proof {
            assert(out@ =~= lower_seq(v@).take(i as int));
        }
    }
    proof {
        assert(out@ =~= lower_seq(v@));
    }
    out
}

/// Whether two character vectors hold the same text.
fn chars_equal(a: &Vec<char>, b: &Vec<char>) -> (r: bool)
    ensures
        r == (a@ == b@),
{
    if a.len() != b.len() {
        return false;
    }
    let mut i: usize = 0;
    while i < a.len()
        invariant
            a@.len() == b@.len(),
            0 <= i <= a@.len(),
            forall|k: int| 0 <= k < i ==> a@[k] == b@[k],
        decreases a.len() - i,
    {
        if a[i] != b[i] {
            return false;
        }
        i = i + 1;
    }
    proof {
        assert(a@ =~= b@);
    }
    true
}

/// Where the trailing run of `c` begins.
pub open spec fn end_run_char(s: Seq<char>, c: char) -> int
    decreases s.len(),
{
    if s.len() == 0 {
        0
    } else if s.last() == c {
        end_run_char(s.drop_last(), c)
    } else {
        s.len() as int
    }
}

proof fn lemma_end_run_char_is(s: Seq<char>, c: char, e: int)
    requires
        0 <= e <= s.len(),
        forall|k: int| e <= k < s.len() ==> s[k] == c,
        e > 0 ==> s[e - 1] != c,
    ensures
        end_run_char(s, c) == e,
    decreases s.len(),
{
    if s.len() > 0 && s.last() == c {
        assert(e < s.len());
        assert(forall|k: int| 0 <= k < s.len() - 1 ==> s.drop_last()[k] == s[k]);
        lemma_end_run_char_is(s.drop_last(), c, e);
    } else if s.len() > 0 {
        assert(s[s.len() - 1] != c);
    }
}

pub open spec fn eq_char_fn(c: char) -> spec_fn(char) -> bool {
    |x: char| x == c
}

/// The text with every leading and trailing `c` removed.
pub open spec fn trim_char_spec(s: Seq<char>, c: char) -> Seq<char> {
    let f = run_end(s, 0, eq_char_fn(c));
    let e = end_run_char(s, c);
    if f >= e {
        Seq::empty()
    } else {
        s.subrange(f, e)
    }
}

/// Executable char trim, equal to `trim_char_spec`.
fn trim_char_exec(v: &Vec<char>, c: char) -> (r: Vec<char>)
    ensures
        r@ == trim_char_spec(v@, c),
{
    let mut f: usize = 0;
    while f < v.len() && v[f] == c
        invariant
            0 <= f <= v@.len(),
            forall|k: int| 0 <= k < f ==> v@[k] == c,
        decreases v.len() - f,
    {
        f = f + 1;
    }
    proof {
        lemma_run_end_is(v@, 0, eq_char_fn(c), f as int);
    }
    let mut e = v.len();
    while e > 0 && v[e - 1] == c
        invariant
            0 <= e <= v@.len(),
            forall|k: int| e <= k < v@.len() ==> v@[k] == c,
        decreases e,
    {
        e = e - 1;
    }
    proof {
        lemma_end_run_char_is(v@, c, e as int);
    }
    if f >= e {
        proof {
            assert(trim_char_spec(v@, c) =~= Seq::<char>::empty());
        }
        return Vec::new();
    }
    let mut out: Vec<char> = Vec::new();
    copy_range(&mut out, v, f, e);
    proof {
        assert(out@ =~= trim_char_spec(v@, c));
    }
    out
}

pub open spec fn colon_pred(s: Seq<char>) -> spec_fn(int) -> bool {
    |j: int| 0 <= j < s.len() && s[j] == ':'
}

/// What one line of an identity file yields: after trimming and dropping
/// one leading bullet, the line must split at a colon; the key, cleared of
/// markup noise, trimmed and lowercased, must read `name`; the value,
/// trimmed and cleared of surrounding stars, backticks and quotes, is the
/// name when anything is left.
pub open spec fn line_name(line: Seq<char>) -> Option<Seq<char>> {
    let t = trim_spec(line);
    if t.len() == 0 {
        None
    } else {
        let wb = if t[0] == '-' || t[0] == '*' {
            trim_spec(t.subrange(1, t.len() as int))
        } else {
            t
        };
        let ci = crate::pattern::first_where(wb.len() as int, 0, colon_pred(wb));
        if ci < 0 {
            None
        } else {
            let raw_key = wb.subrange(0, ci);
            let raw_value = wb.subrange(ci + 1, wb.len() as int);
            let key = lower_seq(trim_spec(remove_noise_from(raw_key, 0)));
            if key == "name"@ {
                let value = trim_spec(
                    trim_char_spec(
                        trim_char_spec(trim_char_spec(trim_spec(raw_value), '*'), '`'),
                        '"',
                    ),
                );
                if value.len() > 0 {
                    Some(value)
                } else {
                    None
                }
            } else {
                None
            }
        }
    }
}

/// Executable line reading, equal to `line_name`.
fn line_name_exec(line: &Vec<char>) -> (r: Option<Vec<char>>)
    ensures
        match r {
            Some(v) => line_name(line@) == Some(v@),
            None => line_name(line@) is None,
        },
{
    let t0 = trim_exec(line);
    if t0.len() == 0 {
        return None;
    }
    let wb: Vec<char>;
    if t0[0] == '-' || t0[0] == '*' {
        let mut rest: Vec<char> = Vec::new();
        copy_range(&mut rest, &t0, 1, t0.len());
        wb = trim_exec(&rest);
    } else {
        wb = t0;
    }
    let mut ci: usize = 0;
    while ci < wb.len() && wb[ci] != ':'
        invariant
            0 <= ci <= wb@.len(),
            forall|k: int| 0 <= k < ci ==> wb@[k] != ':',
        decreases wb.len() - ci,
    {
        ci = ci + 1;
    }
    proof {
        crate::pattern::lemma_first_where_is(wb@.len() as int, 0, colon_pred(wb@), ci as int);
    }
    if ci == wb.len() {
        return None;
    }
    let mut raw_key: Vec<char> = Vec::new();
    copy_range(&mut raw_key, &wb, 0, ci);
    let mut raw_value: Vec<char> = Vec::new();
    copy_range(&mut raw_value, &wb, ci + 1, wb.len());
    let key = lower_exec(&trim_exec(&remove_noise_exec(&raw_key)));
    let name_lit = chars_of("name");
    if !chars_equal(&key, &name_lit) {
        return None;
    }
    let value = trim_exec(
        &trim_char_exec(&trim_char_exec(&trim_char_exec(&trim_exec(&raw_value), '*'), '`'), '"'),
    );
    if value.len() > 0 {
        Some(value)
    } else {
        None
    }
}

pub open spec fn not_nl_fn() -> spec_fn(char) -> bool {
    |c: char| c != '\n'
}

/// The first name an identity file's lines yield, scanning from `from`:
/// lines are split at newlines, with one trailing carriage return
/// dropped.
pub open spec fn identity_name_from(s: Seq<char>, from: int) -> Option<Seq<char>>
    decreases s.len() - from when 0 <= from <= s.len() via identity_name_from_decreases
{
    let e = run_end(s, from, not_nl_fn());
    let line0 = s.subrange(from, e);
    let line = if line0.len() > 0 && line0.last() == '\r' {
        line0.drop_last()
    } else {
        line0
    };
    match line_name(line) {
        Some(v) => Some(v),
        None => if e >= s.len() {
            None
        } else {
            identity_name_from(s, e + 1)
        },
    }
}

#[via_fn]
proof fn identity_name_from_decreases(s: Seq<char>, from: int) {
    lemma_run_end(s, from, not_nl_fn());
}

/// Reads the owner's name out of identity-file text: the first line whose
/// key reads `name` and whose value is nonempty decides.
pub fn parse_identity_name(content: &str) -> (r: Option<String>)
    ensures
        match r {
            Some(s) => identity_name_from(content@, 0) == Some(s@),
            None => identity_name_from(content@, 0) is None,
        },
{
    let v = chars_of(content);
    let mut from: usize = 0;
    loop
        invariant
            0 <= from <= v@.len(),
            v@ == content@,
            identity_name_from(content@, 0) == identity_name_from(content@, from as int),
        decreases v@.len() - from,
    {
        let mut e = from;
        while e < v.len() && v[e] != '\n'
            invariant
                from <= e <= v@.len(),
                forall|k: int| from <= k < e ==> v@[k] != '\n',
            decreases v.len() - e,
        {
            e = e + 1;
        }
        proof {
            lemma_run_end_is(v@, from as int, not_nl_fn(), e as int);
        }
        let mut line: Vec<char> = Vec::new();
        copy_range(&mut line, &v, from, e);
        if line.len() > 0 && line[line.len() - 1] == '\r' {
            let ghost before = line@;
            line.truncate(line.len() - 1);
            proof {
                assert(line@ =~= before.drop_last());
            }
        }
        match line_name_exec(&line) {
            Some(val) => {
                return Some(string_of(&val));
            },
            None => {
                if e >= v.len() {
                    return None;
                }
                from = e + 1;
            },
        }
    }
}


/// The gateway host used when nothing names one.
pub const DEFAULT_GATEWAY_HOST: &'static str = "127.0.0.1";

/// The gateway port used when nothing names one.
pub const DEFAULT_GATEWAY_PORT: u16 = 18789;

/// The gateway settings the application reads at startup.
pub struct OpenClawConfig {
    pub token: Option<String>,
    pub port: u16,
    pub host: String,
    pub url: Option<String>,
}

/// The owner's name, when an identity file declares one.
pub struct OpenClawIdentity {
    pub name: Option<String>,
}

/// The gateway settings one configuration file yields.
#[derive(Debug)]
pub struct ParsedGatewayConfig {
    pub token: Option<String>,
    pub port: Option<u16>,
    pub host: Option<String>,
    pub url: Option<String>,
}

/// The string value a JSON pointer path leads to in the given text.
pub fn get_json_str(json_text: &str, pointer: &str) -> (r: Option<String>)
    ensures
        r is Some <==> pointer_str_of(json_text@, pointer@) is Some,
        r is Some ==> Some(r->0@) == pointer_str_of(json_text@, pointer@),
{
    json_pointer_str(json_text, pointer)
}

/// A looked-up setting trimmed of whitespace; None when it misses or
/// nothing is left.
pub open spec fn nonempty_of(raw: Option<Seq<char>>) -> Option<Seq<char>> {
    match raw {
        Some(s) => if trim_spec(s).len() == 0 {
            None
        } else {
            Some(trim_spec(s))
        },
        None => None,
    }
}

/// The token setting: the first of its known paths, trimmed.
pub open spec fn token_of(doc: Seq<char>) -> Option<Seq<char>> {
    nonempty_of(
        match pointer_str_of(doc, "/gateway/auth/token"@) {
            Some(s) => Some(s),
            None => match pointer_str_of(doc, "/gateway/token"@) {
                Some(s) => Some(s),
                None => pointer_str_of(doc, "/auth/token"@),
            },
        },
    )
}

/// The port setting: the first of its known paths, narrowed as the
/// configuration reader narrows it.
pub open spec fn port_of(doc: Seq<char>) -> Option<u16> {
    match pointer_u64_of(doc, "/gateway/port"@) {
        Some(p) => Some(((p % 0x10000) as u16)),
        None => match pointer_u64_of(doc, "/port"@) {
            Some(p) => Some(((p % 0x10000) as u16)),
            None => None,
        },
    }
}

/// The host setting: the first of its known paths, trimmed.
pub open spec fn host_of(doc: Seq<char>) -> Option<Seq<char>> {
    nonempty_of(
        match pointer_str_of(doc, "/gateway/host"@) {
            Some(s) => Some(s),
            None => pointer_str_of(doc, "/host"@),
        },
    )
}

/// The gateway address: the first of its known paths, normalized to a
/// socket scheme.
pub open spec fn gateway_url_of(doc: Seq<char>) -> Option<Seq<char>> {
    let raw = match pointer_str_of(doc, "/gateway/url"@) {
        Some(s) => Some(s),
        None => match pointer_str_of(doc, "/gateway/wsUrl"@) {
            Some(s) => Some(s),
            None => match pointer_str_of(doc, "/gateway/ws_url"@) {
                Some(s) => Some(s),
                None => match pointer_str_of(doc, "/gateway/websocketUrl"@) {
                    Some(s) => Some(s),
                    None => pointer_str_of(doc, "/gateway/websocket_url"@),
                },
            },
        },
    };
    match raw {
        Some(s) => normalize_gateway_url_spec(s),
        None => None,
    }
}

/// Reads gateway settings out of configuration-file text: the token, port,
/// host and address are each taken from the first of their known paths
/// that holds a usable value; text that is not JSON fails with a wrapped
/// description.
pub fn parse_openclaw_config(content: &str) -> (r: Result<ParsedGatewayConfig, String>)
    ensures
        r is Ok <==> json_ok_of(content@),
        r is Err ==> r->Err_0@.take(24) == "failed to parse config: "@,
        match r {
            Ok(p) => {
                &&& (match p.token {
                    Some(v) => Some(v@) == token_of(content@),
                    None => token_of(content@) is None,
                })
                &&& p.port == port_of(content@)
                &&& (match p.host {
                    Some(v) => Some(v@) == host_of(content@),
                    None => host_of(content@) is None,
                })
                &&& (match p.url {
                    Some(v) => Some(v@) == gateway_url_of(content@),
                    None => gateway_url_of(content@) is None,
                })
            },
            Err(_) => true,
        },
{
    match json_parse(content) {
        Ok(_) => {},
        Err(e) => {
            let mut m = String::from_str("failed to parse config: ");
            m.append(e.as_str());
            proof {
                reveal_strlit("failed to parse config: ");
                assert(m@.take(24) =~= "failed to parse config: "@);
            }
            return Err(m);
        },
    }
    let token_raw = match get_json_str(content, "/gateway/auth/token") {
        Some(s) => Some(s),
        None => match get_json_str(content, "/gateway/token") {
            Some(s) => Some(s),
            None => get_json_str(content, "/auth/token"),
        },
    };
    let token = match token_raw {
        Some(s) => normalize_non_empty(s.as_str()),
        None => None,
    };
    let port_raw = match json_pointer_u64(content, "/gateway/port") {
        Some(p) => Some(p),
        None => json_pointer_u64(content, "/port"),
    };
    let port = match port_raw {
        Some(p) => Some(((p % 0x10000) as u16)),
        None => None,
    };
    let host_raw = match get_json_str(content, "/gateway/host") {
        Some(s) => Some(s),
        None => get_json_str(content, "/host"),
    };
    let host = match host_raw {
        Some(s) => normalize_non_empty(s.as_str()),
        None => None,
    };
    let url_raw = match get_json_str(content, "/gateway/url") {
        Some(s) => Some(s),
        None => match get_json_str(content, "/gateway/wsUrl") {
            Some(s) => Some(s),
            None => match get_json_str(content, "/gateway/ws_url") {
                Some(s) => Some(s),
                None => match get_json_str(content, "/gateway/websocketUrl") {
                    Some(s) => Some(s),
                    None => get_json_str(content, "/gateway/websocket_url"),
                },
            },
        },
    };
    let url = match url_raw {
        Some(s) => normalize_gateway_url(s.as_str()),
        None => None,
    };
    Ok(ParsedGatewayConfig { token, port, host, url })
}

/// The pointer path of one field of the agent at position `i`.
pub open spec fn agent_path(i: int, field: Seq<char>) -> Seq<char> {
    "/agents/list/"@ + dec_digits(i as nat) + seq!['/'] + field
}

/// Whether the agent at position `i` is marked as the default.
pub open spec fn agent_default_at(doc: Seq<char>, i: int) -> bool {
    pointer_bool_of(doc, agent_path(i, "default"@)) == Some(true)
}

/// The position of the first default agent among `n`, at or after `from`;
/// -1 when there is none.
pub open spec fn first_default_agent(doc: Seq<char>, n: int, from: int) -> int
    decreases n - from when from <= n
{
    if from < 0 || from >= n {
        -1
    } else if agent_default_at(doc, from) {
        from
    } else {
        first_default_agent(doc, n, from + 1)
    }
}

/// The workspace of the three fixed paths, trimmed.
pub open spec fn fixed_workspace_of(doc: Seq<char>) -> Option<Seq<char>> {
    nonempty_of(
        match pointer_str_of(doc, "/agents/defaults/workspace"@) {
            Some(s) => Some(s),
            None => match pointer_str_of(doc, "/agents/workspace"@) {
                Some(s) => Some(s),
                None => pointer_str_of(doc, "/workspace"@),
            },
        },
    )
}

/// The workspace of the first default agent, trimmed; None when there is
/// no agent list, no default agent, or its workspace is missing or empty.
pub open spec fn default_agent_workspace_of(doc: Seq<char>) -> Option<Seq<char>> {
    match array_len_at(doc, "/agents/list"@) {
        Some(n) => {
            let i = first_default_agent(doc, n, 0);
            if i < 0 {
                None
            } else {
                nonempty_of(pointer_str_of(doc, agent_path(i, "workspace"@)))
            }
        },
        None => None,
    }
}

/// The workspace setting in force: the fixed paths first, then the first
/// default agent's.
pub open spec fn workspace_of(doc: Seq<char>) -> Option<Seq<char>> {
    match fixed_workspace_of(doc) {
        Some(w) => Some(w),
        None => default_agent_workspace_of(doc),
    }
}

proof fn lemma_first_default_is(doc: Seq<char>, n: int, j: int)
    requires
        0 <= j <= n,
        forall|k: int| 0 <= k < j ==> !agent_default_at(doc, k),
        j < n ==> agent_default_at(doc, j),
    ensures
        first_default_agent(doc, n, 0) == if j == n {
            -1 as int
        } else {
            j
        },
{
    lemma_first_default_from(doc, n, 0, j);
}

proof fn lemma_first_default_from(doc: Seq<char>, n: int, from: int, j: int)
    requires
        0 <= from <= j <= n,
        forall|k: int| from <= k < j ==> !agent_default_at(doc, k),
        j < n ==> agent_default_at(doc, j),
    ensures
        first_default_agent(doc, n, from) == if j == n {
            -1 as int
        } else {
            j
        },
    decreases n - from,
{
    if from < j {
        lemma_first_default_from(doc, n, from + 1, j);
    }
}

/// One field of the agent at position `i`, looked up by its pointer path.
fn agent_field_path(i: usize, field: &str) -> (r: String)
    ensures
        r@ == agent_path(i as int, field@),
{
    let mut path = chars_of("/agents/list/");
    let digits = crate::transport::u64_to_string(i as u64);
    let dv = chars_of(digits.as_str());
    copy_range(&mut path, &dv, 0, dv.len());
    path.push('/');
    let fv = chars_of(field);
    copy_range(&mut path, &fv, 0, fv.len());
    proof {
        assert(dv@.subrange(0, dv@.len() as int) =~= dv@);
        assert(fv@.subrange(0, fv@.len() as int) =~= fv@);
        assert(path@ =~= agent_path(i as int, field@));
    }
    string_of(&path)
}

/// Reads the workspace setting out of configuration-file text: first the
/// fixed paths, then the workspace of the first agent marked as default.
pub fn parse_openclaw_workspace(content: &str) -> (r: Result<Option<String>, String>)
    ensures
        r is Ok <==> json_ok_of(content@),
        r is Err ==> r->Err_0@.take(24) == "failed to parse config: "@,
        match r {
            Ok(w) => match w {
                Some(ws) => Some(ws@) == workspace_of(content@),
                None => workspace_of(content@) is None,
            },
            Err(_) => true,
        },
{
    match json_parse(content) {
        Ok(_) => {},
        Err(e) => {
            let mut m = String::from_str("failed to parse config: ");
            m.append(e.as_str());
            proof {
                reveal_strlit("failed to parse config: ");
                assert(m@.take(24) =~= "failed to parse config: "@);
            }
            return Err(m);
        },
    }
    let from_defaults_raw = match get_json_str(content, "/agents/defaults/workspace") {
        Some(s) => Some(s),
        None => match get_json_str(content, "/agents/workspace") {
            Some(s) => Some(s),
            None => get_json_str(content, "/workspace"),
        },
    };
    let from_defaults = match from_defaults_raw {
        Some(s) => normalize_non_empty(s.as_str()),
        None => None,
    };
    if from_defaults.is_some() {
        return Ok(from_defaults);
    }
    let n = match json_array_len(content, "/agents/list") {
        Some(n) => n,
        None => {
            return Ok(None);
        },
    };
    let mut i: usize = 0;
    while i < n
        invariant
            0 <= i <= n,
            Some(n as int) == array_len_at(content@, "/agents/list"@),
            forall|k: int| 0 <= k < i ==> !agent_default_at(content@, k),
            json_ok_of(content@),
            fixed_workspace_of(content@) is None,
        decreases n - i,
    {
        let is_default = match json_pointer_bool(
            content,
            agent_field_path(i, "default").as_str(),
        ) {
            Some(b) => b,
            None => false,
        };
        if is_default {
            proof {
                lemma_first_default_is(content@, n as int, i as int);
            }
            let ws = match json_pointer_str(
                content,
                agent_field_path(i, "workspace").as_str(),
            ) {
                Some(s) => normalize_non_empty(s.as_str()),
                None => None,
            };
            return Ok(ws);
        }
        i = i + 1;
    }
    proof {
        lemma_first_default_is(content@, n as int, n as int);
    }
    Ok(None)
}

/// The gateway settings in force: each field prefers its environment
/// override, then the configuration file's value, then the default.
pub fn combine_config(
    env_token: Option<String>,
    env_port: Option<u16>,
    env_host: Option<String>,
    env_url: Option<String>,
    file: Option<ParsedGatewayConfig>,
) -> (r: OpenClawConfig)
    ensures
        r.token == (match env_token {
            Some(t) => Some(t),
            None => match file {
                Some(f) => f.token,
                None => None::<String>,
            },
        }),
        r.port == (match env_port {
            Some(p) => p,
            None => match file {
                Some(f) => match f.port {
                    Some(p) => p,
                    None => DEFAULT_GATEWAY_PORT,
                },
                None => DEFAULT_GATEWAY_PORT,
            },
        }),
        r.host@ == (match env_host {
            Some(h) => h@,
            None => match file {
                Some(f) => match f.host {
                    Some(h) => h@,
                    None => DEFAULT_GATEWAY_HOST@,
                },
                None => DEFAULT_GATEWAY_HOST@,
            },
        }),
        r.url == (match env_url {
            Some(u) => Some(u),
            None => match file {
                Some(f) => f.url,
                None => None::<String>,
            },
        }),
{
    let (file_token, file_port, file_host, file_url) = match file {
        Some(f) => (f.token, f.port, f.host, f.url),
        None => (None, None, None, None),
    };
    let token = match env_token {
        Some(t) => Some(t),
        None => file_token,
    };
    let port = match env_port {
        Some(p) => p,
        None => match file_port {
            Some(p) => p,
            None => DEFAULT_GATEWAY_PORT,
        },
    };
    let host = match env_host {
        Some(h) => h,
        None => match file_host {
            Some(h) => h,
            None => String::from_str(DEFAULT_GATEWAY_HOST),
        },
    };
    let url = match env_url {
        Some(u) => Some(u),
        None => file_url,
    };
    OpenClawConfig { token, port, host, url }
}

/// The environment's port override parsed as the gateway port, when it is
/// one.
pub fn gateway_port_from(env_value: Option<String>) -> (r: Option<u16>)
    ensures
        r == (match env_value {
            Some(s) => crate::discovery::spec_parse_u16(s@),
            None => None::<u16>,
        }),
{
    match env_value {
        Some(s) => parse_u16(s.as_str()),
        None => None,
    }
}

/// The name of the first identity file that yields one, in search order;
/// files yielding nothing are passed over.
pub fn first_identity_name(contents: &Vec<String>) -> (r: Option<String>)
    ensures
        match r {
            Some(s) => exists|i: int|
                0 <= i < contents@.len() && identity_name_from(#[trigger] contents@[i]@, 0)
                    == Some(s@) && (forall|k: int|
                    0 <= k < i ==> identity_name_from(#[trigger] contents@[k]@, 0) is None),
            None => forall|i: int|
                0 <= i < contents@.len() ==> identity_name_from(#[trigger] contents@[i]@, 0)
                    is None,
        },
{
    let mut i: usize = 0;
    while i < contents.len()
        invariant
            0 <= i <= contents@.len(),
            forall|k: int|
                0 <= k < i ==> identity_name_from(#[trigger] contents@[k]@, 0) is None,
        decreases contents.len() - i,
    {
        match parse_identity_name(contents[i].as_str()) {
            Some(name) => {
                proof {
                    assert(identity_name_from(contents@[i as int]@, 0) == Some(name@));
                }
                return Some(name);
            },
            None => {
                i = i + 1;
            },
        }
    }
    None
}


pub open spec fn neq_char_fn(c: char) -> spec_fn(char) -> bool {
    |x: char| x != c
}

/// The separated pieces of a list pushed in order, empty pieces skipped;
/// the flag records whether anything was pushed.
pub open spec fn push_segments(
    ps: Seq<Seq<char>>,
    s: Seq<char>,
    from: int,
    sep: char,
    any: bool,
) -> (Seq<Seq<char>>, bool)
    decreases s.len() - from when 0 <= from <= s.len() via push_segments_decreases
{
    let e = run_end(s, from, neq_char_fn(sep));
    let seg = s.subrange(from, e);
    let ps2 = if seg.len() == 0 {
        ps
    } else {
        push_unique_v(ps, seg)
    };
    let any2 = any || seg.len() > 0;
    if e >= s.len() {
        (ps2, any2)
    } else {
        push_segments(ps2, s, e + 1, sep, any2)
    }
}

#[via_fn]
proof fn push_segments_decreases(ps: Seq<Seq<char>>, s: Seq<char>, from: int, sep: char, any: bool) {
    lemma_run_end(s, from, neq_char_fn(sep));
}

/// What an environment path list adds: its nonempty pieces, or — when the
/// trimmed value splits into nothing — the trimmed value itself.
pub open spec fn env_path_push_v(ps: Seq<Seq<char>>, raw: Seq<char>, sep: char) -> Seq<Seq<char>> {
    let t = trim_spec(raw);
    if t.len() == 0 {
        ps
    } else {
        let out = push_segments(ps, t, 0, sep, false);
        if out.1 {
            out.0
        } else {
            push_unique_v(ps, t)
        }
    }
}

/// Appends the paths of an environment list variable, split on the given
/// separator, skipping empty pieces; a value that splits into nothing is
/// pushed whole.
pub fn push_env_path_list(paths: &mut Vec<String>, raw: Option<String>, sep: char)
    ensures
        final (paths).deep_view() == (match raw {
            Some(s) => env_path_push_v(old(paths).deep_view(), s@, sep),
            None => old(paths).deep_view(),
        }),
{
    let s = match raw {
        Some(s) => s,
        None => {
            return ;
        },
    };
    let sv = chars_of(s.as_str());
    let t = trim_exec(&sv);
    if t.len() == 0 {
        return ;
    }
    let ghost ps0 = paths.deep_view();
    let ghost tv = t@;
    let mut pushed_any = false;
    let mut from: usize = 0;
    loop
        invariant_except_break
            0 <= from <= t@.len(),
            t@ == tv && tv == trim_spec(s@) && tv.len() > 0,
            push_segments(ps0, tv, 0, sep, false) == push_segments(
                paths.deep_view(),
                tv,
                from as int,
                sep,
                pushed_any,
            ),
            !pushed_any ==> paths.deep_view() == ps0,
        ensures
            t@ == tv && tv == trim_spec(s@) && tv.len() > 0,
            (paths.deep_view(), pushed_any) == push_segments(ps0, tv, 0, sep, false),
            !pushed_any ==> paths.deep_view() == ps0,
        decreases t@.len() - from,
    {
        let mut e = from;
        while e < t.len() && t[e] != sep
            invariant
                from <= e <= t@.len(),
                t@ == tv,
                forall|k: int| from <= k < e ==> t@[k] != sep,
            decreases t.len() - e,
        {
            e = e + 1;
        }
        proof {
            lemma_run_end_is(tv, from as int, neq_char_fn(sep), e as int);
        }
        if e > from {
            let mut seg: Vec<char> = Vec::new();
            copy_range(&mut seg, &t, from, e);
            push_unique(paths, string_of(&seg));
            pushed_any = true;
        }
        if e >= t.len() {
            break ;
        }
        from = e + 1;
    }
    if !pushed_any {
        push_unique(paths, string_of(&t));
    }
}

/// The fixed configuration file name under a directory, two levels deep.
pub open spec fn config_in(base: Seq<char>, sub: Seq<char>) -> Seq<char> {
    joined(joined(base, sub), "openclaw.json"@)
}

/// The configuration files to try, in order: the environment lists, the
/// home locations (with the platform-specific entries when asked), the
/// system configuration locations, then the mounted-image finds.
pub open spec fn config_candidates_v(
    env_config: Option<Seq<char>>,
    env_wsl: Option<Seq<char>>,
    sep: char,
    home: Option<Seq<char>>,
    config_dir: Option<Seq<char>>,
    macos: bool,
    wsl_paths: Seq<Seq<char>>,
) -> Seq<Seq<char>> {
    let p1 = match env_config {
        Some(s) => env_path_push_v(Seq::empty(), s, sep),
        None => Seq::empty(),
    };
    let p2 = match env_wsl {
        Some(s) => env_path_push_v(p1, s, sep),
        None => p1,
    };
    let p3 = match home {
        Some(h) => {
            let a = push_unique_v(p2, config_in(h, ".openclaw"@));
            let b = push_unique_v(a, config_in(joined(h, ".config"@), "openclaw"@));
            if macos {
                let mac = joined(joined(h, "Library"@), "Application Support"@);
                let c = push_unique_v(b, config_in(mac, "openclaw"@));
                push_unique_v(c, config_in(mac, "OpenClaw"@))
            } else {
                b
            }
        },
        None => p2,
    };
    let p4 = match config_dir {
        Some(cd) => {
            let a = push_unique_v(p3, config_in(cd, "openclaw"@));
            push_unique_v(a, config_in(cd, "OpenClaw"@))
        },
        None => p3,
    };
    dedup_v(p4, wsl_paths)
}

/// Assembles the ordered, duplicate-free list of configuration files to
/// try; the caller reads the environment and directories and hands the
/// values in.
pub fn candidate_config_paths(
    env_config: Option<String>,
    env_wsl: Option<String>,
    sep: char,
    home: Option<String>,
    config_dir: Option<String>,
    macos: bool,
    wsl_paths: &Vec<String>,
) -> (r: Vec<String>)
    ensures
        r.deep_view() == config_candidates_v(
            match env_config {
                Some(s) => Some(s@),
                None => None,
            },
            match env_wsl {
                Some(s) => Some(s@),
                None => None,
            },
            sep,
            match home {
                Some(s) => Some(s@),
                None => None,
            },
            match config_dir {
                Some(s) => Some(s@),
                None => None,
            },
            macos,
            wsl_paths.deep_view(),
        ),
{
    let mut paths: Vec<String> = Vec::new();
    proof {
        assert(paths.deep_view() =~= Seq::<Seq<char>>::empty());
    }
    push_env_path_list(&mut paths, env_config, sep);
    push_env_path_list(&mut paths, env_wsl, sep);
    match home {
        Some(h) => {
            push_unique(&mut paths, join_path(join_path(h.as_str(), ".openclaw").as_str(),
                "openclaw.json"));
            push_unique(&mut paths, join_path(join_path(join_path(h.as_str(),
                ".config").as_str(), "openclaw").as_str(), "openclaw.json"));
            if macos {
                let mac = join_path(join_path(h.as_str(), "Library").as_str(),
                    "Application Support");
                push_unique(&mut paths, join_path(join_path(mac.as_str(), "openclaw").as_str(),
                    "openclaw.json"));
                push_unique(&mut paths, join_path(join_path(mac.as_str(), "OpenClaw").as_str(),
                    "openclaw.json"));
            }
        },
        None => {},
    }
    match config_dir {
        Some(cd) => {
            push_unique(&mut paths, join_path(join_path(cd.as_str(), "openclaw").as_str(),
                "openclaw.json"));
            push_unique(&mut paths, join_path(join_path(cd.as_str(), "OpenClaw").as_str(),
                "openclaw.json"));
        },
        None => {},
    }
    let ghost before_wsl = paths.deep_view();
    let mut i: usize = 0;
    proof {
        assert(wsl_paths.deep_view().skip(0) =~= wsl_paths.deep_view());
    }
    while i < wsl_paths.len()
        invariant
            0 <= i <= wsl_paths@.len(),
            dedup_v(before_wsl, wsl_paths.deep_view()) == dedup_v(
                paths.deep_view(),
                wsl_paths.deep_view().skip(i as int),
            ),
        decreases wsl_paths.len() - i,
    {
        proof {
            assert(wsl_paths.deep_view().skip(i as int)[0] == wsl_paths.deep_view()[i as int]);
            assert(wsl_paths.deep_view().skip(i as int).drop_first()
                =~= wsl_paths.deep_view().skip(i as int + 1));
        }
        push_unique(&mut paths, wsl_paths[i].clone());
        i = i + 1;
    }
    proof {
        assert(wsl_paths.deep_view().skip(wsl_paths@.len() as int).len() == 0);
    }
    paths
}

pub open spec fn is_ascii_alpha(c: char) -> bool {
    ('a' <= c && c <= 'z') || ('A' <= c && c <= 'Z')
}

/// A path that is absolute in the drive-letter or double-backslash style.
pub open spec fn is_abs_windows(s: Seq<char>) -> bool {
    s.len() >= 2 && ((is_ascii_alpha(s[0]) && s[1] == ':') || (s[0] == '\\' && s[1] == '\\'))
}

/// The last separator position, or -1 when the path holds none.
pub open spec fn last_sep_idx(s: Seq<char>) -> int
    decreases s.len(),
{
    if s.len() == 0 {
        -1
    } else if is_sep(s.last()) {
        s.len() - 1
    } else {
        last_sep_idx(s.drop_last())
    }
}

proof fn lemma_last_sep_is(s: Seq<char>, d: int)
    requires
        -1 <= d,
        d == -1 ==> forall|k: int| 0 <= k < s.len() ==> !is_sep(#[trigger] s[k]),
        d >= 0 ==> d < s.len() && is_sep(s[d]) && (forall|k: int|
            d < k < s.len() ==> !is_sep(#[trigger] s[k])),
    ensures
        last_sep_idx(s) == d,
    decreases s.len(),
{
    if s.len() > 0 && !is_sep(s.last()) {
        assert(forall|k: int| 0 <= k < s.len() - 1 ==> s.drop_last()[k] == s[k]);
        lemma_last_sep_is(s.drop_last(), d);
    } else if s.len() > 0 {
        assert(is_sep(s[s.len() - 1]));
    }
}

/// A setting joined under the configuration file's directory: the path up
/// to the file's last separator, when there is one; a file straight under
/// the root joins under the root.
pub open spec fn rel_join(config_path: Seq<char>, w: Seq<char>) -> Seq<char> {
    let ls = last_sep_idx(config_path);
    if ls < 0 {
        w
    } else {
        joined(config_path.subrange(0, ls), w)
    }
}

/// Where a workspace setting points: a home-relative setting lands under
/// the mounted-image home when the configuration file lives in one, else
/// under the caller's home; a rooted setting is carried into the mounted
/// image likewise; an absolute setting stands; anything else is taken
/// relative to the configuration file's directory.  Drive-letter and
/// double-backslash settings count as absolute on every platform,
/// deliberately: such a setting names a fixed place and is never joined
/// under a machine-local configuration directory.
pub open spec fn resolve_workspace_spec(
    config_path: Seq<char>,
    raw: Seq<char>,
    home: Option<Seq<char>>,
) -> Seq<char> {
    let t = trim_spec(raw);
    if has_prefix(t, "~/"@) {
        let rem = t.subrange(2, t.len() as int);
        if wsl_distro_spec(config_path) is Some && wsl_user_spec(config_path) is Some {
            to_wsl_unc_path_spec(
                wsl_distro_spec(config_path)->0,
                "/home/"@ + wsl_user_spec(config_path)->0 + seq!['/'] + rem,
            )
        } else if home is Some {
            joined(home->0, rem)
        } else {
            rel_join(config_path, t)
        }
    } else if t.len() > 0 && t[0] == '/' {
        if wsl_distro_spec(config_path) is Some {
            to_wsl_unc_path_spec(wsl_distro_spec(config_path)->0, t)
        } else {
            t
        }
    } else if is_abs_windows(t) {
        t
    } else {
        rel_join(config_path, t)
    }
}

/// Resolves a workspace setting against the configuration file it came
/// from.
pub fn resolve_workspace_path(config_path: &str, raw_workspace: &str, home: Option<String>) -> (r:
    String)
    ensures
        r@ == resolve_workspace_spec(
            config_path@,
            raw_workspace@,
            match home {
                Some(h) => Some(h@),
                None => None,
            },
        ),
{
    let tv = trim_exec(&chars_of(raw_workspace));
    let tilde = chars_of("~/");
    if starts_with_chars(&tv, &tilde) {
        proof {
            reveal_strlit("~/");
        }
        let mut rem: Vec<char> = Vec::new();
        copy_range(&mut rem, &tv, 2, tv.len());
        let distro = wsl_distro_from_unc_path(config_path);
        let user = wsl_user_from_unc_path(config_path);
        match (distro, user) {
            (Some(d), Some(u)) => {
                let mut lp = chars_of("/home/");
                let uv = chars_of(u.as_str());
                copy_range(&mut lp, &uv, 0, uv.len());
                lp.push('/');
                copy_range(&mut lp, &rem, 0, rem.len());
                proof {
                    assert(uv@.subrange(0, uv@.len() as int) =~= uv@);
                    assert(rem@.subrange(0, rem@.len() as int) =~= rem@);
                    assert(lp@ =~= "/home/"@ + u@ + seq!['/'] + rem@);
                }
                return to_wsl_unc_path(d.as_str(), string_of(&lp).as_str());
            },
            (_, _) => {},
        }
        match home {
            Some(h) => {
                return join_path(h.as_str(), string_of(&rem).as_str());
            },
            None => {
                return rel_join_exec(config_path, &tv);
            },
        }
    }
    proof {
        reveal_strlit("~/");
    }
    if tv.len() > 0 && tv[0] == '/' {
        match wsl_distro_from_unc_path(config_path) {
            Some(d) => {
                return to_wsl_unc_path(d.as_str(), string_of(&tv).as_str());
            },
            None => {
                return string_of(&tv);
            },
        }
    }
    let abs_win = tv.len() >= 2 && ((('a' <= tv[0] && tv[0] <= 'z') || ('A' <= tv[0] && tv[0]
        <= 'Z')) && tv[1] == ':' || (tv[0] == '\\' && tv[1] == '\\'));
    if abs_win {
        return string_of(&tv);
    }
    rel_join_exec(config_path, &tv)
}

/// Executable relative join, equal to `rel_join`.
fn rel_join_exec(config_path: &str, w: &Vec<char>) -> (r: String)
    ensures
        r@ == rel_join(config_path@, w@),
{
    let cv = chars_of(config_path);
    let mut j = cv.len();
    while j > 0 && !(cv[j - 1] == '/' || cv[j - 1] == '\\')
        invariant
            0 <= j <= cv@.len(),
            forall|k: int| j <= k < cv@.len() ==> !is_sep(#[trigger] cv@[k]),
        decreases j,
    {
        j = j - 1;
    }
    if j == 0 {
        proof {
            lemma_last_sep_is(cv@, -1);
        }
        return string_of(w);
    }
    proof {
        lemma_last_sep_is(cv@, j - 1);
    }
    let mut out: Vec<char> = Vec::new();
    copy_range(&mut out, &cv, 0, j - 1);
    out.push('/');
    copy_range(&mut out, w, 0, w.len());
    proof {
        assert(w@.subrange(0, w@.len() as int) =~= w@);
        assert(out@ =~= joined(cv@.subrange(0, j - 1), w@));
    }
    string_of(&out)
}

} // verus!
