//! The clock and the calendar.

use vstd::prelude::*;

verus! {

/// `chrono::Utc::now` in RFC 3339 form. What it says depends on the time of the
/// call, so nothing is stated of it.
#[verifier::external_body]
pub(crate) fn now_rfc3339() -> (r: String) {
    chrono::Utc::now().to_rfc3339()
}

/// The Unix seconds of the instant that a text writes in RFC 3339 form, where it
/// writes one.
pub uninterp spec fn rfc3339_instant(text: Seq<char>) -> Option<i64>;

/// `chrono::DateTime::parse_from_rfc3339`, its result taken as whole Unix seconds
/// by `DateTime::timestamp`: a function of the text alone.
#[verifier::external_body]
fn read_rfc3339(text: &str) -> (r: Option<i64>)
    ensures
        r == rfc3339_instant(text@),
{
    chrono::DateTime::parse_from_rfc3339(text).ok().map(|t| t.timestamp())
}

/// The Unix seconds that a reading gives; 0 where there is none.
pub fn seconds_or_zero(reading: Option<i64>) -> (r: i64)
    ensures
        r == match reading {
            Some(s) => s,
            None => 0,
        },
{
    match reading {
        Some(s) => s,
        None => 0,
    }
}

/// The Unix seconds of an RFC 3339 timestamp; 0 where it is none.
pub fn parse_timestamp_rfc3339(ts: &str) -> (r: i64)
    ensures
        r == match rfc3339_instant(ts@) {
            Some(s) => s,
            None => 0,
        },
{
    seconds_or_zero(read_rfc3339(ts))
}

} // verus!
