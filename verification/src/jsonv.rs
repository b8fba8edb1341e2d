//! Trusted boundary to serde_json. The provider answers JSON of shapes that
//! vary by endpoint; these wrappers parse a body and take JSON values
//! apart. A `serde_json::Value` is opaque here: all decisions on what was
//! extracted are made by verified callers on the plain values these
//! wrappers hand out.

use vstd::prelude::*;

verus! {

#[verifier::external_type_specification]
#[verifier::external_body]
pub struct ExValue(serde_json::Value);

/// Whether serde_json decodes the text as a JSON document: deciding this is
/// a pure function of the text.
pub uninterp spec fn json_ok(s: Seq<char>) -> bool;

/// The `error` member of the decoded document, rendered as compact JSON:
/// present exactly when the text decodes to a value carrying one; a pure
/// function of the text.
pub uninterp spec fn json_error_text(s: Seq<char>) -> Option<Seq<char>>;

/// The string `access_token` member of the decoded document, when the text
/// decodes to a value carrying one; a pure function of the text.
pub uninterp spec fn access_token_text(s: Seq<char>) -> Option<Seq<char>>;

/// The string `refresh_token` member of the decoded document, likewise.
pub uninterp spec fn refresh_token_text(s: Seq<char>) -> Option<Seq<char>>;

/// Relies on serde_json::from_str: decodes a JSON document (success depends
/// on the text alone), or reports the syntax error as text.
#[verifier::external_body]
pub fn parse_json(s: &str) -> (r: Result<serde_json::Value, String>)
    ensures
        r is Ok <==> json_ok(s@),
{
    match serde_json::from_str::<serde_json::Value>(s) {
        Ok(v) => Ok(v),
        Err(e) => Err(e.to_string()),
    }
}

/// Relies on serde_json::from_str, Value::get and Value's Display: the
/// `error` member of the decoded body, rendered as compact JSON, when the
/// body decodes and carries one.
#[verifier::external_body]
pub fn json_error_member(s: &str) -> (r: Option<String>)
    ensures
        (match (r, json_error_text(s@)) {
            (Some(t), Some(u)) => t@ == u,
            (None, None) => true,
            _ => false,
        }),
{
    match serde_json::from_str::<serde_json::Value>(s) {
        Ok(v) => match v.get("error") {
            Some(e) => Some(e.to_string()),
            None => None,
        },
        Err(_) => None,
    }
}

/// Relies on serde_json::from_str, Value::get and Value::as_str: the
/// `access_token` and `refresh_token` members of the decoded body, each
/// present exactly when it is a string member.
#[verifier::external_body]
pub fn token_members(s: &str) -> (r: (Option<String>, Option<String>))
    ensures
        (match (r.0, access_token_text(s@)) {
            (Some(t), Some(u)) => t@ == u,
            (None, None) => true,
            _ => false,
        }),
        (match (r.1, refresh_token_text(s@)) {
            (Some(t), Some(u)) => t@ == u,
            (None, None) => true,
            _ => false,
        }),
{
    match serde_json::from_str::<serde_json::Value>(s) {
        Ok(v) => (
            v.get("access_token").and_then(serde_json::Value::as_str).map(str::to_string),
            v.get("refresh_token").and_then(serde_json::Value::as_str).map(str::to_string),
        ),
        Err(_) => (None, None),
    }
}

/// Relies on serde_json::Value::get: the value under `key` when `self` is
/// an object holding it, `None` otherwise.
#[verifier::external_body]
pub fn json_get<'a>(v: &'a serde_json::Value, key: &str) -> (r: Option<&'a serde_json::Value>)
{
    v.get(key)
}

/// Relies on serde_json::Value::as_i64: the number when `self` is an
/// integer representable as i64.
#[verifier::external_body]
pub fn json_as_i64(v: &serde_json::Value) -> (r: Option<i64>)
{
    v.as_i64()
}

/// Relies on serde_json::Value::as_str: the text when `self` is a string.
#[verifier::external_body]
pub fn json_as_string(v: &serde_json::Value) -> (r: Option<String>)
{
    match v.as_str() {
        Some(s) => Some(s.to_string()),
        None => None,
    }
}

/// Relies on serde_json::Value::is_null.
#[verifier::external_body]
pub fn json_is_null(v: &serde_json::Value) -> (r: bool)
{
    v.is_null()
}

/// Relies on serde_json::Value::as_array: the elements when `self` is an
/// array.
#[verifier::external_body]
pub fn json_array_of(v: &serde_json::Value) -> (r: Option<Vec<serde_json::Value>>)
{
    match v.as_array() {
        Some(a) => Some(a.clone()),
        None => None,
    }
}

/// Relies on serde_json::Map::iter (via Value::as_object): the object's
/// entries, in the map's deterministic key order.
#[verifier::external_body]
pub fn json_object_entries(v: &serde_json::Value) -> (r: Option<Vec<(String, serde_json::Value)>>)
{
    match v.as_object() {
        Some(m) => Some(m.iter().map(|(k, val)| (k.clone(), val.clone())).collect()),
        None => None,
    }
}

} // verus!
