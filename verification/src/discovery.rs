//! Tab discovery: the debug endpoint's target list is parsed and the first
//! page-type target exposing a debugger socket is selected.  The caller
//! fetches the list over HTTP and hands the body in as text.

use vstd::prelude::*;
use vstd::string::StringExecFns;
use crate::text::{chars_of, is_digit};
use crate::json::{
    json_parse, json_pointer_str, json_array_len, pointer_str_of, array_len_at,
};
use crate::transport::dec_digits;

verus! {

/// The port the browser's debug endpoint listens on unless overridden.
pub const DEFAULT_CDP_PORT: u16 = 9222;

/// One browser tab as the debug endpoint reports it.
pub struct CdpTarget {
    pub id: String,
    pub target_type: String,
    pub title: String,
    pub url: String,
    pub web_socket_debugger_url: Option<String>,
}

/// A target the page reader can use: a page exposing a debugger socket.
pub open spec fn eligible(t: CdpTarget) -> bool {
    t.target_type@ == "page"@ && t.web_socket_debugger_url is Some
}

/// The index of the first eligible target at or after `from`, or -1.
pub open spec fn first_eligible(ts: Seq<CdpTarget>, from: int) -> int
    decreases ts.len() - from when 0 <= from <= ts.len()
{
    if from < 0 || from >= ts.len() {
        -1
    } else if eligible(ts[from]) {
        from
    } else {
        first_eligible(ts, from + 1)
    }
}

/// The position of the first open page exposing a debugger socket, or
/// None when no target qualifies.
pub fn select_page_target(targets: &Vec<CdpTarget>) -> (r: Option<usize>)
    ensures
        first_eligible(targets@, 0) == -1 <==> r is None,
        r is Some ==> r->0 < targets@.len() && r->0 as int == first_eligible(targets@, 0)
            && eligible(targets@[r->0 as int]),
{
    let page = String::from_str("page");
    let mut i: usize = 0;
    while i < targets.len()
        invariant
            0 <= i <= targets@.len(),
            page@ == "page"@,
            forall|k: int| 0 <= k < i ==> !eligible(targets@[k]),
        decreases targets.len() - i,
    {
        let is_page = targets[i].target_type == page;
        let has_socket = targets[i].web_socket_debugger_url.is_some();
        if is_page && has_socket {
            proof {
                lemma_first_eligible_is(targets@, i as int);
            }
            return Some(i);
        }
        i = i + 1;
    }
    proof {
        lemma_first_eligible_is(targets@, targets@.len() as int);
    }
    None
}

proof fn lemma_first_eligible_is(ts: Seq<CdpTarget>, j: int)
    requires
        0 <= j <= ts.len(),
        forall|k: int| 0 <= k < j ==> !eligible(ts[k]),
        j < ts.len() ==> eligible(ts[j]),
    ensures
        first_eligible(ts, 0) == if j == ts.len() {
            -1 as int
        } else {
            j
        },
{
    lemma_first_eligible_from(ts, 0, j);
}

proof fn lemma_first_eligible_from(ts: Seq<CdpTarget>, from: int, j: int)
    requires
        0 <= from <= j <= ts.len(),
        forall|k: int| from <= k < j ==> !eligible(ts[k]),
        j < ts.len() ==> eligible(ts[j]),
    ensures
        first_eligible(ts, from) == if j == ts.len() {
            -1 as int
        } else {
            j
        },
    decreases ts.len() - from,
{
    if from < j {
        lemma_first_eligible_from(ts, from + 1, j);
    }
}

/// The numeric value of decimal digit text, most significant digit first.
pub open spec fn dec_value(s: Seq<char>) -> int
    decreases s.len(),
{
    if s.len() == 0 {
        0
    } else {
        10 * dec_value(s.drop_last()) + (s.last() as u32 - 0x30)
    }
}

/// The text with an optional leading plus sign removed.
pub open spec fn parse_body(s: Seq<char>) -> Seq<char> {
    if s.len() > 0 && s[0] == '+' {
        s.subrange(1, s.len() as int)
    } else {
        s
    }
}

/// How `u16::from_str` reads text: an optional leading plus sign, then one
/// or more decimal digits, with a value at most 65535; anything else is
/// rejected.
pub open spec fn spec_parse_u16(s: Seq<char>) -> Option<u16> {
    let body = parse_body(s);
    if body.len() > 0 && (forall|k: int| 0 <= k < body.len() ==> is_digit(#[trigger] body[k]))
        && dec_value(body) <= 65535 {
        Some(dec_value(body) as u16)
    } else {
        None
    }
}

proof fn lemma_dec_value_nonneg(s: Seq<char>)
    requires
        forall|k: int| 0 <= k < s.len() ==> is_digit(#[trigger] s[k]),
    ensures
        dec_value(s) >= 0,
    decreases s.len(),
{
    if s.len() > 0 {
        assert(forall|k: int| 0 <= k < s.len() - 1 ==> s.drop_last()[k] == s[k]);
        lemma_dec_value_nonneg(s.drop_last());
    }
}

proof fn lemma_dec_value_take_succ(s: Seq<char>, i: int)
    requires
        0 <= i < s.len(),
    ensures
        dec_value(s.take(i + 1)) == 10 * dec_value(s.take(i)) + (s[i] as u32 - 0x30),
{
    assert(s.take(i + 1).drop_last() =~= s.take(i));
    assert(s.take(i + 1).last() == s[i]);
}

/// Appending digits never shrinks the value.
proof fn lemma_dec_value_grows(s: Seq<char>, i: int, j: int)
    requires
        0 <= i <= j <= s.len(),
        forall|k: int| 0 <= k < s.len() ==> is_digit(#[trigger] s[k]),
    ensures
        dec_value(s.take(j)) >= dec_value(s.take(i)),
    decreases j - i,
{
    if i < j {
        lemma_dec_value_take_succ(s, i);
        assert(forall|k: int| 0 <= k < i ==> s.take(i)[k] == s[k]);
        lemma_dec_value_nonneg(s.take(i));
        lemma_dec_value_grows(s, i + 1, j);
    }
}

/// Reads a u16 from decimal text exactly as `u16::from_str` does.
pub fn parse_u16(s: &str) -> (r: Option<u16>)
    ensures
        r == spec_parse_u16(s@),
{
    let v = chars_of(s);
    let start: usize = if v.len() > 0 && v[0] == '+' {
        1
    } else {
        0
    };
    let ghost body = parse_body(s@);
    proof {
        assert(body =~= v@.subrange(start as int, v@.len() as int));
    }
    if v.len() == start {
        return None;
    }
    proof {
        assert(body.take(0) =~= Seq::<char>::empty());
    }
    let mut acc: u32 = 0;
    let mut i = start;
    while i < v.len()
        invariant
            0 <= start <= i <= v@.len(),
            start < v@.len(),
            v@ == s@,
            body == parse_body(s@),
            body == v@.subrange(start as int, v@.len() as int),
            body.len() == v@.len() - start,
            forall|k: int| 0 <= k < i - start ==> is_digit(#[trigger] body[k]),
            acc as int == dec_value(body.take(i - start)),
            acc <= 65535,
        decreases v.len() - i,
    {
        let c = v[i];
        proof {
            assert(body[i - start] == v@[i as int]);
        }
        if !(c >= '0' && c <= '9') {
            proof {
                assert(!is_digit(body[i - start]));
                assert(!(forall|k: int| 0 <= k < body.len() ==> is_digit(#[trigger] body[k])));
            }
            return None;
        }
        let d: u32 = (c as u32) - 0x30;
        proof {
            lemma_dec_value_take_succ(body, i - start);
            assert(dec_value(body.take(i - start + 1)) == 10 * acc + d);
        }
        if acc > 6553 || (acc == 6553 && d > 5) {
            proof {
                if forall|k: int| 0 <= k < body.len() ==> is_digit(#[trigger] body[k]) {
                    lemma_dec_value_grows(body, i - start + 1, body.len() as int);
                    assert(body.take(body.len() as int) =~= body);
                    assert(dec_value(body) >= dec_value(body.take(i - start + 1)));
                    assert(dec_value(body) > 65535);
                }
            }
            return None;
        }
        acc = acc * 10 + d;
        i = i + 1;
    }
    proof {
        assert(body.take(body.len() as int) =~= body);
        assert(acc as int == dec_value(body));
        assert(body.len() > 0);
    }
    Some(acc as u16)
}

/// The debug port to use: the override parsed as a port number when it is
/// one, the default otherwise.
pub fn cdp_port_from(env_value: Option<String>) -> (r: u16)
    ensures
        r == match env_value {
            None => DEFAULT_CDP_PORT,
            Some(s) => match spec_parse_u16(s@) {
                Some(p) => p,
                None => DEFAULT_CDP_PORT,
            },
        },
{
    match env_value {
        None => DEFAULT_CDP_PORT,
        Some(s) => match parse_u16(s.as_str()) {
            Some(p) => p,
            None => DEFAULT_CDP_PORT,
        },
    }
}

/// How a discovery attempt fails.
#[derive(Debug)]
pub enum DiscoveryError {
    /// The debug endpoint could not be reached at all.
    NotRunning,
    /// The target list could not be read; holds the full description.
    ParseFailed(String),
    /// No page-type target with a debugger socket is open.
    NoOpenTabs,
}

impl DiscoveryError {
    /// The caller-facing description; the remediation hint for an
    /// unreachable endpoint names the platform's own restart command.
    pub open spec fn message_spec(&self, macos: bool) -> Seq<char> {
        match self {
            DiscoveryError::NotRunning => if macos {
                "Chrome is not running in debug mode. Restart Chrome with: /Applications/Google\\ Chrome.app/Contents/MacOS/Google\\ Chrome --remote-debugging-port=9222"@
            } else {
                "Chrome is not running in debug mode. Restart Chrome with: chrome.exe --remote-debugging-port=9222"@
            },
            DiscoveryError::ParseFailed(m) => m@,
            DiscoveryError::NoOpenTabs => "No open tabs found in Chrome."@,
        }
    }

    /// The caller-facing description of the failure.
    pub fn message(&self, macos: bool) -> (r: String)
        ensures
            r@ == self.message_spec(macos),
    {
        match self {
            DiscoveryError::NotRunning => {
                if macos {
                    String::from_str(
                        "Chrome is not running in debug mode. Restart Chrome with: /Applications/Google\\ Chrome.app/Contents/MacOS/Google\\ Chrome --remote-debugging-port=9222",
                    )
                } else {
                    String::from_str(
                        "Chrome is not running in debug mode. Restart Chrome with: chrome.exe --remote-debugging-port=9222",
                    )
                }
            },
            DiscoveryError::ParseFailed(m) => m.clone(),
            DiscoveryError::NoOpenTabs => String::from_str("No open tabs found in Chrome."),
        }
    }
}

/// The pointer path of one field of the target at position `i`.
pub open spec fn target_path(i: int, field: Seq<char>) -> Seq<char> {
    seq!['/'] + dec_digits(i as nat) + seq!['/'] + field
}

/// Whether the target at position `i` carries its four required strings.
pub open spec fn target_ok_at(body: Seq<char>, i: int) -> bool {
    &&& pointer_str_of(body, target_path(i, "id"@)) is Some
    &&& pointer_str_of(body, target_path(i, "type"@)) is Some
    &&& pointer_str_of(body, target_path(i, "title"@)) is Some
    &&& pointer_str_of(body, target_path(i, "url"@)) is Some
}

/// Whether `t` holds exactly the fields of the target at position `i`.
pub open spec fn target_matches(body: Seq<char>, i: int, t: CdpTarget) -> bool {
    &&& Some(t.id@) == pointer_str_of(body, target_path(i, "id"@))
    &&& Some(t.target_type@) == pointer_str_of(body, target_path(i, "type"@))
    &&& Some(t.title@) == pointer_str_of(body, target_path(i, "title"@))
    &&& Some(t.url@) == pointer_str_of(body, target_path(i, "url"@))
    &&& match t.web_socket_debugger_url {
        Some(u) => Some(u@) == pointer_str_of(body, target_path(i, "webSocketDebuggerUrl"@)),
        None => pointer_str_of(body, target_path(i, "webSocketDebuggerUrl"@)) is None,
    }
}

/// A body that reads as a complete target list: an array whose every
/// element carries the four required strings.
pub open spec fn targets_wf(body: Seq<char>) -> bool {
    &&& array_len_at(body, ""@) is Some
    &&& forall|i: int|
        0 <= i < array_len_at(body, ""@)->0 ==> #[trigger] target_ok_at(body, i)
}

/// One field of the target at position `i`, looked up by its pointer path.
fn lookup_target_field(body: &str, i: usize, field: &str) -> (r: Option<String>)
    ensures
        r is Some <==> pointer_str_of(body@, target_path(i as int, field@)) is Some,
        r is Some ==> Some(r->0@) == pointer_str_of(body@, target_path(i as int, field@)),
{
    let mut path: Vec<char> = Vec::new();
    path.push('/');
    let digits = crate::transport::u64_to_string(i as u64);
    let dv = chars_of(digits.as_str());
    crate::pattern::copy_range(&mut path, &dv, 0, dv.len());
    path.push('/');
    let fv = chars_of(field);
    crate::pattern::copy_range(&mut path, &fv, 0, fv.len());
    proof {
        assert(dv@.subrange(0, dv@.len() as int) =~= dv@);
        assert(fv@.subrange(0, fv@.len() as int) =~= fv@);
        assert(path@ =~= target_path(i as int, field@));
    }
    let path_text = crate::text::string_of(&path);
    json_pointer_str(body, path_text.as_str())
}

/// Parses the debug endpoint's body into the target list: the body must
/// read as an array and every element must carry its four required
/// strings, else the whole list fails with a wrapped description.
pub fn parse_targets(body: &str) -> (r: Result<Vec<CdpTarget>, String>)
    ensures
        r is Ok <==> targets_wf(body@),
        r is Ok ==> r->Ok_0@.len() as int == array_len_at(body@, ""@)->0 && (forall|i: int|
            0 <= i < r->Ok_0@.len() ==> target_matches(body@, i, #[trigger] r->Ok_0@[i])),
        r is Err ==> r->Err_0@.take(36) == "Failed to parse Chrome debug targets"@,
{
    proof {
        reveal_strlit("Failed to parse Chrome debug targets");
        reveal_strlit("Failed to parse Chrome debug targets: ");
        reveal_strlit("Failed to parse Chrome debug targets: expected an array");
        reveal_strlit("Failed to parse Chrome debug targets: a target is malformed");
    }
    let n = match json_array_len(body, "") {
        Some(n) => n,
        None => {
            let m = match json_parse(body) {
                Err(e) => {
                    let mut m = String::from_str("Failed to parse Chrome debug targets: ");
                    m.append(e.as_str());
                    m
                },
                Ok(_) => String::from_str(
                    "Failed to parse Chrome debug targets: expected an array",
                ),
            };
            proof {
                assert(m@.take(36) =~= "Failed to parse Chrome debug targets"@);
            }
            return Err(m);
        },
    };
    let mut out: Vec<CdpTarget> = Vec::new();
    let mut i: usize = 0;
    while i < n
        invariant
            0 <= i <= n,
            Some(n as int) == array_len_at(body@, ""@),
            out@.len() == i,
            forall|k: int| 0 <= k < i ==> #[trigger] target_ok_at(body@, k),
            forall|k: int| 0 <= k < i ==> target_matches(body@, k, #[trigger] out@[k]),
        decreases n - i,
    {
        let id = lookup_target_field(body, i, "id");
        let target_type = lookup_target_field(body, i, "type");
        let title = lookup_target_field(body, i, "title");
        let url = lookup_target_field(body, i, "url");
        match (id, target_type, title, url) {
            (Some(id), Some(target_type), Some(title), Some(url)) => {
                let web_socket_debugger_url = lookup_target_field(
                    body,
                    i,
                    "webSocketDebuggerUrl",
                );
                out.push(CdpTarget { id, target_type, title, url, web_socket_debugger_url });
            },
            (_, _, _, _) => {
                proof {
                    reveal_strlit("Failed to parse Chrome debug targets");
                    reveal_strlit("Failed to parse Chrome debug targets: a target is malformed");
                    assert(!target_ok_at(body@, i as int));
                    assert(!targets_wf(body@));
                }
                let m = String::from_str(
                    "Failed to parse Chrome debug targets: a target is malformed",
                );
                proof {
                    assert(m@.take(36) =~= "Failed to parse Chrome debug targets"@);
                }
                return Err(m);
            },
        }
        i = i + 1;
    }
    Ok(out)
}

/// A target at position `i` the page reader could use, read off the body.
pub open spec fn eligible_at(body: Seq<char>, i: int) -> bool {
    &&& pointer_str_of(body, target_path(i, "type"@)) == Some("page"@)
    &&& pointer_str_of(body, target_path(i, "webSocketDebuggerUrl"@)) is Some
}

/// The position of the first eligible target in a body of `n` targets, at
/// or after `from`; -1 when there is none.
pub open spec fn first_eligible_at(body: Seq<char>, n: int, from: int) -> int
    decreases n - from when from <= n
{
    if from < 0 || from >= n {
        -1
    } else if eligible_at(body, from) {
        from
    } else {
        first_eligible_at(body, n, from + 1)
    }
}

/// A parsed list selects the same position whether eligibility is read
/// off the targets or off the body.
proof fn lemma_first_eligible_bridge(body: Seq<char>, ts: Seq<CdpTarget>, from: int)
    requires
        0 <= from <= ts.len(),
        forall|i: int| 0 <= i < ts.len() ==> target_matches(body, i, #[trigger] ts[i]),
    ensures
        first_eligible(ts, from) == first_eligible_at(body, ts.len() as int, from),
    decreases ts.len() - from,
{
    if from < ts.len() {
        assert(target_matches(body, from, ts[from]));
        assert(eligible(ts[from]) <==> eligible_at(body, from));
        lemma_first_eligible_bridge(body, ts, from + 1);
    }
}

/// Runs discovery on the fetched target list: the body is parsed and the
/// first page exposing a debugger socket is taken; a malformed body fails
/// with the wrapped description, a well-formed one without such a page
/// with the no-open-tabs error.
pub fn discover_from_body(body: &str) -> (r: Result<CdpTarget, DiscoveryError>)
    ensures
        (r is Err && r->Err_0 is ParseFailed) <==> !targets_wf(body@),
        targets_wf(body@) ==> ({
            let n = array_len_at(body@, ""@)->0;
            &&& (r == Err::<CdpTarget, DiscoveryError>(DiscoveryError::NoOpenTabs)
                <==> first_eligible_at(body@, n, 0) == -1)
            &&& (r is Ok ==> eligible(r->Ok_0) && target_matches(
                body@,
                first_eligible_at(body@, n, 0),
                r->Ok_0,
            ))
        }),
{
    let targets = match parse_targets(body) {
        Ok(ts) => ts,
        Err(m) => {
            return Err(DiscoveryError::ParseFailed(m));
        },
    };
    proof {
        lemma_first_eligible_bridge(body@, targets@, 0);
    }
    match select_page_target(&targets) {
        Some(i) => {
            let mut targets = targets;
            Ok(targets.remove(i))
        },
        None => Err(DiscoveryError::NoOpenTabs),
    }
}

} // verus!
