//! Trusted access to loosely typed JSON values through serde_json.  A
//! `serde_json::Value` is opaque here: every lookup returns a plain value
//! that verified code then examines, so nothing is assumed about the shape
//! of a response beyond what each wrapper's own call yields.

use vstd::prelude::*;

verus! {

#[verifier::external_type_specification]
#[verifier::external_body]
pub struct ExValue(serde_json::Value);

/// Whether the text parses as JSON, a function of the text alone.
pub uninterp spec fn json_ok_of(doc: Seq<char>) -> bool;

/// The string value a JSON pointer path leads to in the parsed text:
/// None when the text is not JSON, a segment is missing, or the value
/// there is not a string.
pub uninterp spec fn pointer_str_of(doc: Seq<char>, path: Seq<char>) -> Option<Seq<char>>;

/// The u64 value a JSON pointer path leads to in the parsed text, under
/// the same conditions.
pub uninterp spec fn pointer_u64_of(doc: Seq<char>, path: Seq<char>) -> Option<u64>;

/// The boolean a JSON pointer path leads to in the parsed text, under the
/// same conditions.
pub uninterp spec fn pointer_bool_of(doc: Seq<char>, path: Seq<char>) -> Option<bool>;

/// The length of the array a JSON pointer path leads to in the parsed
/// text; the empty path names the document itself.
pub uninterp spec fn array_len_at(doc: Seq<char>, path: Seq<char>) -> Option<int>;

/// The numeric id field of the parsed text, as a command response carries
/// it.
pub uninterp spec fn frame_id_of(text: Seq<char>) -> Option<u64>;

/// Relies on serde_json::from_str: parses JSON text into a value; success
/// is a function of the text alone, and the error case carries the
/// parser's own description.
#[verifier::external_body]
pub fn json_parse(s: &str) -> (r: Result<serde_json::Value, String>)
    ensures
        r is Ok <==> json_ok_of(s@),
{
    serde_json::from_str::<serde_json::Value>(s).map_err(|e| format!("{}", e))
}

/// Relies on serde_json::from_str, Value::pointer and Value::as_str, all
/// deterministic in the text: the string a pointer path leads to.
#[verifier::external_body]
pub fn json_pointer_str(doc: &str, path: &str) -> (r: Option<String>)
    ensures
        r is Some <==> pointer_str_of(doc@, path@) is Some,
        r is Some ==> Some(r->0@) == pointer_str_of(doc@, path@),
{
    serde_json::from_str::<serde_json::Value>(doc)
        .ok()
        .and_then(|v| v.pointer(path).and_then(|x| x.as_str().map(|s| s.to_string())))
}

/// Relies on serde_json::from_str, Value::pointer and Value::as_u64: the
/// u64 a pointer path leads to.
#[verifier::external_body]
pub fn json_pointer_u64(doc: &str, path: &str) -> (r: Option<u64>)
    ensures
        r == pointer_u64_of(doc@, path@),
{
    serde_json::from_str::<serde_json::Value>(doc)
        .ok()
        .and_then(|v| v.pointer(path).and_then(|x| x.as_u64()))
}

/// Relies on serde_json::from_str, Value::pointer and Value::as_bool: the
/// boolean a pointer path leads to.
#[verifier::external_body]
pub fn json_pointer_bool(doc: &str, path: &str) -> (r: Option<bool>)
    ensures
        r == pointer_bool_of(doc@, path@),
{
    serde_json::from_str::<serde_json::Value>(doc)
        .ok()
        .and_then(|v| v.pointer(path).and_then(|x| x.as_bool()))
}

/// Relies on serde_json::from_str, Value::pointer and Value::as_array:
/// how many elements the array at a pointer path holds.
#[verifier::external_body]
pub fn json_array_len(doc: &str, path: &str) -> (r: Option<usize>)
    ensures
        r is Some <==> array_len_at(doc@, path@) is Some,
        r is Some ==> Some(r->0 as int) == array_len_at(doc@, path@),
{
    serde_json::from_str::<serde_json::Value>(doc)
        .ok()
        .and_then(|v| v.pointer(path).and_then(|x| x.as_array().map(|a| a.len())))
}

/// Relies on serde_json::from_str, Value::get and Value::as_u64: the
/// numeric id field of a response frame.
#[verifier::external_body]
pub fn json_id_of(text: &str) -> (r: Option<u64>)
    ensures
        r == frame_id_of(text@),
{
    serde_json::from_str::<serde_json::Value>(text)
        .ok()
        .and_then(|v| v.get("id").and_then(|x| x.as_u64()))
}

} // verus!
