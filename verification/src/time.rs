//! Timestamps as milliseconds since the epoch; parsing and the clock come
//! from the `chrono` crate.
use vstd::prelude::*;

verus! {

/// The UTC milliseconds denoted by an RFC 3339 string, or nothing when the
/// string does not parse.
pub uninterp spec fn rfc3339_millis(s: Seq<char>) -> Option<int>;

/// Relies on `chrono::DateTime::parse_from_rfc3339`: parsing a fixed string
/// has a fixed outcome; on success the result is the instant's UTC timestamp
/// in milliseconds.
#[verifier::external_body]
pub(crate) fn parse_rfc3339_millis(s: &str) -> (r: Option<i64>)
    ensures
        r is Some <==> rfc3339_millis(s@) is Some,
        r matches Some(ms) ==> rfc3339_millis(s@) == Some(ms as int),
{
    chrono::DateTime::parse_from_rfc3339(s)
        .ok()
        .map(|dt| dt.with_timezone(&chrono::Utc).timestamp_millis())
}

/// Relies on `chrono::Utc::now`: the wall clock in milliseconds. Nothing is
/// assumed of its value.
#[verifier::external_body]
pub(crate) fn now_millis() -> i64 {
    chrono::Utc::now().timestamp_millis()
}

} // verus!
