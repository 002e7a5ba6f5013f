use vstd::prelude::*;
use chrono::Datelike;

verus! {

/// Number of seconds in one calendar day.
pub const SECONDS_PER_DAY: u64 = 86400;

/// The largest Unix timestamp the ledger accepts: the last second of the
/// year 9999. Every timestamp up to this bound names a valid calendar date.
pub const MAX_TIMESTAMP: u64 = 253402300799;

/// The calendar year that a Unix timestamp (seconds, UTC) falls in.
pub uninterp spec fn year_of(ts: int) -> int;

/// Relies on `chrono::DateTime::from_timestamp` and `chrono::Datelike::year`:
/// for a timestamp between 0 and the last second of year 9999 the conversion
/// succeeds, and the year depends on the timestamp alone.
#[verifier::external_body]
pub fn year_of_timestamp(ts: u64) -> (y: i32)
    requires
        ts <= MAX_TIMESTAMP,
    ensures
        y == year_of(ts as int),
{
    chrono::DateTime::from_timestamp(ts as i64, 0).unwrap().year()
}

/// The day index (whole days since the Unix epoch) a timestamp falls on.
/// Two timestamps share a day index exactly when they fall on the same
/// calendar day, so the day index serves as the price-cache key.
pub fn day_of_timestamp(ts: u64) -> (day: u64)
    ensures
        day == ts / SECONDS_PER_DAY,
{
    ts / SECONDS_PER_DAY
}

} // verus!
