//! Wall-clock and timestamp-format primitives.
//!
//! Timestamps travel through the core as RFC 3339 strings; comparing or
//! aging them goes through `rfc3339_millis`, the (named) number of
//! milliseconds since the Unix epoch that such a string denotes, if it
//! parses at all.

use vstd::prelude::*;

verus! {

/// The instant an RFC 3339 string denotes, as whole milliseconds since the
/// Unix epoch, or `None` if the string is not valid RFC 3339. A function of
/// the string alone.
pub uninterp spec fn rfc3339_millis(s: Seq<char>) -> Option<int>;

/// Relies on chrono's `DateTime::parse_from_rfc3339` and
/// `DateTime::timestamp_millis`: parsing is a pure function of the string,
/// and `timestamp_millis` returns the denoted instant's whole milliseconds
/// since the epoch.
#[verifier::external_body]
pub fn parse_rfc3339_millis(s: &str) -> (r: Option<i64>)
    ensures
        match r {
            Some(t) => rfc3339_millis(s@) == Some(t as int),
            None => rfc3339_millis(s@) is None,
        },
{
    chrono::DateTime::parse_from_rfc3339(s).ok().map(|d| d.timestamp_millis())
}

/// Relies on chrono's `Utc::now` and `DateTime::to_rfc3339`: the current
/// instant formatted as RFC 3339, which `parse_from_rfc3339` accepts back.
/// The value depends on the wall clock, so nothing more is promised.
#[verifier::external_body]
pub fn now_rfc3339() -> (r: String)
    ensures
        rfc3339_millis(r@) is Some,
{
    chrono::Utc::now().to_rfc3339()
}

/// Relies on chrono's `Utc::now` and `DateTime::timestamp_millis`: the
/// current instant as whole milliseconds since the Unix epoch. Wall-clock
/// dependent; nothing is promised of the value.
#[verifier::external_body]
pub fn now_millis() -> (r: i64)
{
    chrono::Utc::now().timestamp_millis()
}

} // verus!
