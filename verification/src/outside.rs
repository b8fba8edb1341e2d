//! Trusted boundary to the remaining outside computations the client leans
//! on: percent-encoding of filter expressions, RFC 3339 rendering of
//! timestamps, and Unicode whitespace classification. Each result that is a
//! pure function of its argument is given a name that verified contracts
//! speak of exactly.

use vstd::prelude::*;

verus! {

/// The percent-encoded form of a string, as urlencoding renders it.
pub uninterp spec fn url_encoded(s: Seq<char>) -> Seq<char>;

/// Relies on urlencoding::encode: percent-encodes every byte except
/// alphanumerics and `-`, `_`, `.`, `~`; a pure function of its input.
#[verifier::external_body]
pub fn url_encode(s: &str) -> (r: String)
    ensures
        r@ == url_encoded(s@),
{
    urlencoding::encode(s).into_owned()
}

/// The RFC 3339 rendering of an epoch-second UTC timestamp, as chrono
/// writes it (for instance `2021-01-01T00:00:00+00:00`).
pub uninterp spec fn rfc3339_of(secs: int) -> Seq<char>;

/// Whether chrono can represent the epoch-second timestamp at all: its
/// documentation makes the formatter fail exactly on an out-of-range
/// number of seconds, a condition of the seconds alone.
pub uninterp spec fn rfc3339_definable(secs: int) -> bool;

/// Relies on chrono's `DateTime::<Utc>::from_timestamp`, which (at zero
/// nanoseconds) is `None` exactly on an out-of-range number of seconds,
/// and on `DateTime::to_rfc3339`, whose text depends on the timestamp
/// alone.
#[verifier::external_body]
pub fn format_utc_seconds(secs: i64) -> (r: Option<String>)
    ensures
        r is Some <==> rfc3339_definable(secs as int),
        r matches Some(t) ==> t@ == rfc3339_of(secs as int),
{
    match chrono::DateTime::<chrono::Utc>::from_timestamp(secs, 0) {
        Some(dt) => Some(dt.to_rfc3339()),
        None => None,
    }
}

/// Whether std classifies a character as whitespace.
pub uninterp spec fn ws_char(c: char) -> bool;

/// Relies on char::is_whitespace of std: Unicode `White_Space` property, a
/// pure function of the character.
#[verifier::external_body]
pub fn char_is_whitespace(c: char) -> (r: bool)
    ensures
        r == ws_char(c),
{
    c.is_whitespace()
}

} // verus!
