//! The page reader's orchestration: the fixed command batch, extraction of
//! the payloads from the collected responses, and assembly of the final
//! snapshot with its partial-success rule.

use vstd::prelude::*;
use vstd::string::StringExecFns;
use crate::discovery::{CdpTarget, DiscoveryError, first_eligible, select_page_target};
use crate::json::{json_pointer_str, pointer_str_of};
use crate::sanitize::{preprocess_html, sanitize_spec};
use crate::screenshot::{b64_decode_of, compress_screenshot_base64, CompressError, MAX_SCREENSHOT_BASE64};
use crate::text::bytes_len;
use crate::transport::{CdpCommand, TransportError};

verus! {

/// What one successful page read returns.
#[derive(Clone, Debug)]
pub struct BrowserPageData {
    pub html: String,
    pub screenshot: String,
    pub url: String,
    pub title: String,
}

/// Why a page read fails.
#[derive(Debug)]
pub enum PageError {
    /// Discovery failed; holds its error.
    Discovery(DiscoveryError),
    /// The selected tab exposed no socket address (checked defensively;
    /// discovery's filter makes it impossible).
    NoSocketUrl,
    /// The command batch failed as a whole.
    Transport(TransportError),
    /// The screenshot could not be brought under the attachment budget.
    Compress(CompressError),
    /// Both the sanitized markup and the compressed screenshot came out
    /// empty: the read produced nothing usable.
    EmptyResult,
}

impl PageError {
    /// The caller-facing description of the failure.
    pub open spec fn message_spec(&self, macos: bool) -> Seq<char> {
        match self {
            PageError::Discovery(d) => d.message_spec(macos),
            PageError::NoSocketUrl => "No WebSocket URL available for tab"@,
            PageError::Transport(e) => e.message_spec(),
            PageError::Compress(e) => e.message_spec(),
            PageError::EmptyResult => "Failed to read the page. Please try again."@,
        }
    }

    /// The caller-facing description of the failure.
    pub fn message(&self, macos: bool) -> (r: String)
        ensures
            r@ == self.message_spec(macos),
    {
        match self {
            PageError::Discovery(d) => d.message(macos),
            PageError::NoSocketUrl => String::from_str("No WebSocket URL available for tab"),
            PageError::Transport(e) => e.message(),
            PageError::Compress(e) => e.message(),
            PageError::EmptyResult => String::from_str("Failed to read the page. Please try again."),
        }
    }
}

pub open spec fn eval_html_params() -> Seq<char> {
    "{\"expression\":\"document.documentElement.outerHTML\",\"returnByValue\":true}"@
}

pub open spec fn capture_params() -> Seq<char> {
    "{\"format\":\"jpeg\",\"quality\":80}"@
}

pub open spec fn eval_meta_params() -> Seq<char> {
    "{\"expression\":\"JSON.stringify({url:location.href,title:document.title})\",\"returnByValue\":true}"@
}

/// The three commands of one page read, in submission order: the page's
/// outer HTML, a JPEG screenshot at quality 80, and the page's address and
/// title as one JSON value.
pub fn build_read_commands() -> (r: Vec<CdpCommand>)
    ensures
        r@.len() == 3,
        r@[0].method@ == "Runtime.evaluate"@ && r@[0].params@ == eval_html_params(),
        r@[1].method@ == "Page.captureScreenshot"@ && r@[1].params@ == capture_params(),
        r@[2].method@ == "Runtime.evaluate"@ && r@[2].params@ == eval_meta_params(),
{
    let mut out: Vec<CdpCommand> = Vec::new();
    out.push(
        CdpCommand {
            method: String::from_str("Runtime.evaluate"),
            params: String::from_str(
                "{\"expression\":\"document.documentElement.outerHTML\",\"returnByValue\":true}",
            ),
        },
    );
    out.push(
        CdpCommand {
            method: String::from_str("Page.captureScreenshot"),
            params: String::from_str("{\"format\":\"jpeg\",\"quality\":80}"),
        },
    );
    out.push(
        CdpCommand {
            method: String::from_str("Runtime.evaluate"),
            params: String::from_str(
                "{\"expression\":\"JSON.stringify({url:location.href,title:document.title})\",\"returnByValue\":true}",
            ),
        },
    );
    out
}

/// The socket address a page read uses: the first eligible target's, or
/// the no-open-tabs error when no target qualifies.  No command batch is
/// sent when this fails.
pub fn socket_for_read(targets: &Vec<CdpTarget>) -> (r: Result<String, PageError>)
    ensures
        (first_eligible(targets@, 0) == -1 <==> r == Err::<String, PageError>(
            PageError::Discovery(DiscoveryError::NoOpenTabs),
        )),
        r is Ok ==> r->Ok_0@ == targets@[first_eligible(targets@, 0)].web_socket_debugger_url->0@,
{
    match select_page_target(targets) {
        Some(i) => match &targets[i].web_socket_debugger_url {
            Some(u) => Ok(u.clone()),
            None => Err(PageError::NoSocketUrl),
        },
        None => Err(PageError::Discovery(DiscoveryError::NoOpenTabs)),
    }
}

/// The payload when the lookup found a string; empty otherwise.
pub open spec fn or_empty(o: Option<Seq<char>>) -> Seq<char> {
    match o {
        Some(s) => s,
        None => Seq::empty(),
    }
}

/// The raw markup of the first response: its nested result-value string,
/// or empty when any segment is missing or mistyped.
pub open spec fn extracted_html(resp: Seq<char>) -> Seq<char> {
    or_empty(pointer_str_of(resp, "/result/result/value"@))
}

/// The raw capture of the second response: its data string, or empty.
pub open spec fn extracted_shot(resp: Seq<char>) -> Seq<char> {
    or_empty(pointer_str_of(resp, "/result/data"@))
}

/// The metadata payload of the third response, defaulting to an empty
/// object when missing.
pub open spec fn meta_payload_of(resp: Seq<char>) -> Seq<char> {
    match pointer_str_of(resp, "/result/result/value"@) {
        Some(s) => s,
        None => "{}"@,
    }
}

/// The page address the third response carries, or empty.
pub open spec fn extracted_url(resp: Seq<char>) -> Seq<char> {
    or_empty(pointer_str_of(meta_payload_of(resp), "/url"@))
}

/// The page title the third response carries, or empty.
pub open spec fn extracted_title(resp: Seq<char>) -> Seq<char> {
    or_empty(pointer_str_of(meta_payload_of(resp), "/title"@))
}

/// The value a successful evaluate response carries, from its nested
/// result-value path; None when any segment is missing or mistyped.
fn eval_value_of(resp: &str) -> (r: Option<String>)
    ensures
        r is Some <==> pointer_str_of(resp@, "/result/result/value"@) is Some,
        r is Some ==> Some(r->0@) == pointer_str_of(resp@, "/result/result/value"@),
{
    json_pointer_str(resp, "/result/result/value")
}

/// The base64 payload of a screenshot response, from its data path;
/// None when missing or mistyped.
fn screenshot_data_of(resp: &str) -> (r: Option<String>)
    ensures
        r is Some <==> pointer_str_of(resp@, "/result/data"@) is Some,
        r is Some ==> Some(r->0@) == pointer_str_of(resp@, "/result/data"@),
{
    json_pointer_str(resp, "/result/data")
}

/// The address and title of the metadata payload; either defaults to
/// empty when the payload is not JSON or lacks the field.
fn meta_of(meta_json: &str) -> (r: (String, String))
    ensures
        r.0@ == or_empty(pointer_str_of(meta_json@, "/url"@)),
        r.1@ == or_empty(pointer_str_of(meta_json@, "/title"@)),
{
    let url = match json_pointer_str(meta_json, "/url") {
        Some(s) => s,
        None => String::new(),
    };
    let title = match json_pointer_str(meta_json, "/title") {
        Some(s) => s,
        None => String::new(),
    };
    (url, title)
}

/// Builds the snapshot from the extracted payloads: the markup is
/// sanitized, the capture compressed under the attachment budget, and the
/// read is rejected only when both come out empty — partial success is
/// acceptable, and the address and title pass through untouched.
pub fn assemble_snapshot(html_raw: &str, screenshot_raw: &str, url: String, title: String) -> (r:
    Result<BrowserPageData, PageError>)
    ensures
        ({
            let h = sanitize_spec(html_raw@);
            &&& match r {
                Ok(d) => {
                    &&& d.html@ == h
                    &&& bytes_len(d.screenshot@) <= MAX_SCREENSHOT_BASE64 as int
                    &&& d.url == url
                    &&& d.title == title
                    &&& !(d.html@.len() == 0 && d.screenshot@.len() == 0)
                    &&& (screenshot_raw@.len() == 0 ==> d.screenshot@.len() == 0)
                    &&& ((screenshot_raw@.len() != 0 && bytes_len(screenshot_raw@)
                        <= MAX_SCREENSHOT_BASE64 as int) ==> d.screenshot@ == screenshot_raw@)
                },
                Err(e) => match e {
                    PageError::EmptyResult => h.len() == 0,
                    PageError::Compress(_) => bytes_len(screenshot_raw@)
                        > MAX_SCREENSHOT_BASE64 as int,
                    _ => false,
                },
            }
            &&& (bytes_len(screenshot_raw@) <= MAX_SCREENSHOT_BASE64 as int ==> (r is Ok <==> !(
            h.len() == 0 && screenshot_raw@.len() == 0)))
            &&& ((bytes_len(screenshot_raw@) > MAX_SCREENSHOT_BASE64 as int && b64_decode_of(
                screenshot_raw@,
            ) is None) ==> r is Err && r->Err_0 is Compress)
        }),
{
    let html = preprocess_html(html_raw);
    let screenshot = match compress_screenshot_base64(screenshot_raw) {
        Ok(s) => s,
        Err(e) => {
            return Err(PageError::Compress(e));
        },
    };
    if html.as_str().is_empty() && screenshot.as_str().is_empty() {
        return Err(PageError::EmptyResult);
    }
    Ok(BrowserPageData { html, screenshot, url, title })
}

/// Turns the three collected responses into the snapshot: each payload is
/// read from its path, defaulting to empty when absent — a response that
/// carries a command-level error object simply yields its default — and
/// the snapshot is assembled under the partial-success rule.
pub fn extract_snapshot(responses: &Vec<String>) -> (r: Result<BrowserPageData, PageError>)
    requires
        responses@.len() == 3,
    ensures
        ({
            let html_raw = extracted_html(responses@[0]@);
            let shot_raw = extracted_shot(responses@[1]@);
            let h = sanitize_spec(html_raw);
            &&& match r {
                Ok(d) => {
                    &&& d.html@ == h
                    &&& d.url@ == extracted_url(responses@[2]@)
                    &&& d.title@ == extracted_title(responses@[2]@)
                    &&& bytes_len(d.screenshot@) <= MAX_SCREENSHOT_BASE64 as int
                    &&& !(d.html@.len() == 0 && d.screenshot@.len() == 0)
                    &&& (shot_raw.len() == 0 ==> d.screenshot@.len() == 0)
                    &&& ((shot_raw.len() != 0 && bytes_len(shot_raw) <= MAX_SCREENSHOT_BASE64 as int)
                        ==> d.screenshot@ == shot_raw)
                },
                Err(e) => match e {
                    PageError::EmptyResult => h.len() == 0,
                    PageError::Compress(_) => bytes_len(shot_raw) > MAX_SCREENSHOT_BASE64 as int,
                    _ => false,
                },
            }
            &&& (bytes_len(shot_raw) <= MAX_SCREENSHOT_BASE64 as int ==> (r is Ok <==> !(h.len()
                == 0 && shot_raw.len() == 0)))
            &&& ((bytes_len(shot_raw) > MAX_SCREENSHOT_BASE64 as int && b64_decode_of(shot_raw)
                is None) ==> r is Err && r->Err_0 is Compress)
        }),
{
    let html_raw = match eval_value_of(responses[0].as_str()) {
        Some(s) => s,
        None => String::new(),
    };
    let screenshot_raw = match screenshot_data_of(responses[1].as_str()) {
        Some(s) => s,
        None => String::new(),
    };
    let meta_raw = match eval_value_of(responses[2].as_str()) {
        Some(s) => s,
        None => String::from_str("{}"),
    };
    let meta = meta_of(meta_raw.as_str());
    assemble_snapshot(html_raw.as_str(), screenshot_raw.as_str(), meta.0, meta.1)
}

} // verus!
