//! The clock and timestamp formatting, behind trusted wrappers of the
//! `time` crate.

use vstd::prelude::*;
use vstd::string::{StrSliceExecFns, StringExecFns};

verus! {

/// The RFC 3339 UTC text of a unix-epoch-seconds timestamp.  It is a
/// function of the timestamp alone; its text is left unstated.
pub uninterp spec fn rfc3339_of_unix(ts: int) -> Seq<char>;

/// The last unix second the RFC 3339 formatter renders
/// (9999-12-31T23:59:59Z); later seconds fall outside its year range.
pub const RFC3339_UNIX_MAX: i64 = 253402300799;

/// Relies on time::OffsetDateTime::from_unix_timestamp and its Rfc3339
/// formatting: both are deterministic, so the text depends on the
/// timestamp alone.  For any timestamp from the epoch through year 9999
/// both succeed (the date is within the crate's range and the year
/// within the formatter's 0..10000); outside that, either may refuse.
#[verifier::external_body]
fn unix_to_rfc3339_raw(ts: i64) -> (r: Option<String>)
    ensures
        r matches Some(s) ==> s@ == rfc3339_of_unix(ts as int),
        0 <= ts <= RFC3339_UNIX_MAX ==> r is Some,
{
    match time::OffsetDateTime::from_unix_timestamp(ts) {
        Ok(dt) => dt.format(&time::format_description::well_known::Rfc3339).ok(),
        Err(_) => None,
    }
}

/// Relies on time::OffsetDateTime::now_utc and its Rfc3339 formatting;
/// the result depends on the clock, so nothing is promised of it.
#[verifier::external_body]
fn now_rfc3339_raw() -> (r: Option<String>) {
    time::OffsetDateTime::now_utc().format(
        &time::format_description::well_known::Rfc3339,
    ).ok()
}

/// The current time as RFC 3339 UTC text; the epoch text when the
/// formatter fails.  Always non-empty.
pub fn now_iso() -> (r: String)
    ensures
        r@.len() > 0,
{
    proof {
        reveal_strlit("1970-01-01T00:00:00Z");
    }
    match now_rfc3339_raw() {
        Some(s) => {
            if s.as_str().unicode_len() > 0 {
                s
            } else {
                String::from_str("1970-01-01T00:00:00Z")
            }
        },
        None => String::from_str("1970-01-01T00:00:00Z"),
    }
}

/// The RFC 3339 text of a unix timestamp; `fallback` (the current time
/// at the call sites) when the timestamp is out of range.
pub fn unix_to_rfc3339(ts: i64, fallback: String) -> (r: String)
    ensures
        0 <= ts <= RFC3339_UNIX_MAX ==> r@ == rfc3339_of_unix(ts as int),
        r@ == rfc3339_of_unix(ts as int) || r == fallback,
{
    match unix_to_rfc3339_raw(ts) {
        Some(s) => s,
        None => fallback,
    }
}

} // verus!
