//! Interpretation of provider answers: HTTP status handling, the in-body
//! `error` convention, token-exchange responses, page envelopes, and the
//! current-division lookup. The shell performs the exchanges; every
//! decision on what an answer means is made here.

use vstd::prelude::*;
use vstd::string::*;
use crate::errors::ClientError;
use crate::jsonv::{parse_json, json_error_member, token_members, json_ok, json_error_text,
    access_token_text, refresh_token_text, json_get, json_as_i64, json_as_string, json_array_of,
    json_is_null};

verus! {

/// The token pair of a successful exchange, each part exactly as answered:
/// the provider may omit one.
#[derive(Debug, Clone)]
pub struct TokenGrant {
    pub access_token: Option<String>,
    pub refresh_token: Option<String>,
}

/// Judges an HTTP answer to an authenticated GET: a non-2xx status is an
/// `Api` failure carrying status and body verbatim; a 2xx body must decode
/// as JSON and must not carry the provider's in-body `error` field (some
/// failures arrive as HTTP 200 plus an error payload); only then is the
/// decoded value returned.
pub fn interpret_api_response(status: u16, body: String) -> (r: Result<
    serde_json::Value,
    ClientError,
>)
    ensures
        !(200 <= status < 300) ==> (r matches Err(e) && e matches ClientError::Api {
            status: st,
            body: b,
        } && st == status && b == body),
        200 <= status < 300 && !json_ok(body@) ==> (r matches Err(e)
            && e matches ClientError::Decode(_)),
        200 <= status < 300 && json_ok(body@) ==> (match json_error_text(body@) {
            Some(t) => r matches Err(e) && e matches ClientError::ApiBody { message }
                && message@ == "API error: "@ + t,
            None => r is Ok,
        }),
{
    if !(200 <= status && status < 300) {
        return Err(ClientError::Api { status, body });
    }
    let v = match parse_json(body.as_str()) {
        Ok(v) => v,
        Err(m) => {
            let mut msg = String::from_str("Failed to parse JSON: ");
            msg.append(m.as_str());
            return Err(ClientError::Decode(msg));
        },
    };
    match json_error_member(body.as_str()) {
        Some(shown) => {
            let mut msg = String::from_str("API error: ");
            msg.append(shown.as_str());
            Err(ClientError::ApiBody { message: msg })
        },
        None => Ok(v),
    }
}

/// Judges a token-endpoint answer: a body that is not JSON is contract
/// drift; a body carrying `error` is a failed exchange; only then does the
/// exchange succeed, with the grant's tokens exactly as the body carries
/// them (the provider may omit one; persisting then fails on the missing
/// token, so authentication success still depends on obtaining tokens).
pub fn interpret_token_response(body: &str) -> (r: Result<TokenGrant, ClientError>)
    ensures
        !json_ok(body@) ==> (r matches Err(e) && e matches ClientError::Decode(_)),
        json_ok(body@) ==> (match json_error_text(body@) {
            Some(t) => r matches Err(e) && e matches ClientError::Auth(m)
                && m@ == "Token error: "@ + t,
            None => r matches Ok(g) && (match (g.access_token, access_token_text(body@)) {
                (Some(a), Some(u)) => a@ == u,
                (None, None) => true,
                _ => false,
            }) && (match (g.refresh_token, refresh_token_text(body@)) {
                (Some(a), Some(u)) => a@ == u,
                (None, None) => true,
                _ => false,
            }),
        }),
{
    match parse_json(body) {
        Ok(_) => {},
        Err(m) => {
            let mut msg = String::from_str("Failed to parse token response: ");
            msg.append(m.as_str());
            return Err(ClientError::Decode(msg));
        },
    };
    match json_error_member(body) {
        Some(shown) => {
            let mut msg = String::from_str("Token error: ");
            msg.append(shown.as_str());
            Err(ClientError::Auth(msg))
        },
        None => {
            let (access_token, refresh_token) = token_members(body);
            Ok(TokenGrant { access_token, refresh_token })
        },
    }
}

/// Decodes one page envelope `{"d": {"results": [...], "__next": url?}}`:
/// the row values and the optional next-page cursor.
pub fn decode_envelope(v: &serde_json::Value) -> (r: Result<
    (Vec<serde_json::Value>, Option<String>),
    ClientError,
>)
    ensures
        r matches Err(e) ==> e matches ClientError::Decode(m)
            && m@ == "Failed to parse page envelope"@,
{
    let d = match json_get(v, "d") {
        Some(d) => d,
        None => {
            return Err(ClientError::Decode(String::from_str("Failed to parse page envelope")));
        },
    };
    let results = match json_get(d, "results") {
        Some(rs) => match json_array_of(rs) {
            Some(a) => a,
            None => {
                return Err(ClientError::Decode(String::from_str("Failed to parse page envelope")));
            },
        },
        None => {
            return Err(ClientError::Decode(String::from_str("Failed to parse page envelope")));
        },
    };
    let next = match json_get(d, "__next") {
        Some(n) => {
            if json_is_null(n) {
                None
            } else {
                match json_as_string(n) {
                    Some(u) => Some(u),
                    None => {
                        return Err(ClientError::Decode(String::from_str(
                            "Failed to parse page envelope",
                        )));
                    },
                }
            }
        },
        None => None,
    };
    Ok((results, next))
}

/// The count probe's answer, when it is a plain integer; the probe is
/// best-effort and any other shape leaves the total unknown.
pub fn extract_count(v: &serde_json::Value) -> (r: Option<i64>)
{
    json_as_i64(v)
}

/// The current-division decision on what the three probes of the "current
/// user" answer yielded: the first shape carrying an integer wins — the
/// envelope's first row, then the bare object, then the object under `d` —
/// and a value outside i32 range counts as unresolved.
pub fn choose_division(from_results: Option<i64>, bare: Option<i64>, nested: Option<i64>) -> (r:
    Option<i32>)
    ensures
        ({
            let picked = if from_results is Some {
                from_results
            } else if bare is Some {
                bare
            } else {
                nested
            };
            match picked {
                Some(n) => {
                    if i32::MIN as i64 <= n && n <= i32::MAX as i64 {
                        r == Some((n as i32))
                    } else {
                        r is None
                    }
                },
                None => r is None,
            }
        }),
{
    let picked = match from_results {
        Some(n) => Some(n),
        None => match bare {
            Some(n) => Some(n),
            None => nested,
        },
    };
    match picked {
        Some(n) => {
            if i32::MIN as i64 <= n && n <= i32::MAX as i64 {
                Some(n as i32)
            } else {
                None
            }
        },
        None => None,
    }
}

/// Resolves the current division from the "current user" answer: three
/// uncontracted probes of the accepted shapes, decided by
/// `choose_division`.
pub fn extract_current_division(v: &serde_json::Value) -> (r: Option<i32>)
{
    let from_results = match json_get(v, "d") {
        Some(d) => match json_get(d, "results") {
            Some(rs) => match json_array_of(rs) {
                Some(a) => {
                    if a.len() > 0 {
                        division_member_of(&a[0])
                    } else {
                        None
                    }
                },
                None => None,
            },
            None => None,
        },
        None => None,
    };
    let bare = division_member_of(v);
    let nested = match json_get(v, "d") {
        Some(d) => division_member_of(d),
        None => None,
    };
    choose_division(from_results, bare, nested)
}

/// The resolution outcome the authenticate path logs-and-ignores: the
/// resolved division, or the error naming what was missing.
pub fn resolve_current_division(v: &serde_json::Value) -> (r: Result<i32, ClientError>)
    ensures
        r matches Err(e) ==> e matches ClientError::Decode(m)
            && m@ == "Could not find CurrentDivision in response"@,
{
    match extract_current_division(v) {
        Some(d) => Ok(d),
        None => Err(ClientError::Decode(String::from_str(
            "Could not find CurrentDivision in response",
        ))),
    }
}

/// Probes an object for an integral `CurrentDivision` member.
fn division_member_of(v: &serde_json::Value) -> (r: Option<i64>)
{
    match json_get(v, "CurrentDivision") {
        Some(c) => json_as_i64(c),
        None => None,
    }
}

} // verus!
