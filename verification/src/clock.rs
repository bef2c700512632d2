use vstd::prelude::*;
use chrono::TimeZone;

verus! {

/// What a reading of the seconds since the local midnight can be: strictly between minus two
/// days and three days.
pub open spec fn is_reading_since_midnight(n: i64) -> bool {
    -2 * 86400 < n < 3 * 86400
}

/// The current time of day in the machine's time zone, in whole seconds since the local
/// midnight, as chrono computes it: `Local::now()` minus the instant of that day's 00:00:00
/// (`NaiveDate::and_hms_opt` and `TimeZone::from_local_datetime`), in `TimeDelta::num_seconds`.
/// `None` when that midnight names no single local instant (a daylight-saving change).
/// The value depends on the clock and the time zone. What holds of every reading: both
/// instants share a local date, so their local times differ by under a day, and each offset
/// from UTC is a chrono `FixedOffset`, under a day in size (`FixedOffset::east_opt`); the
/// difference therefore lies strictly between minus two days and three days.
#[verifier::external_body]
pub(crate) fn local_seconds_since_midnight() -> (r: Option<i64>)
    ensures
        r matches Some(n) ==> is_reading_since_midnight(n),
{
    let now = chrono::Local::now();
    let midnight = now.date_naive().and_hms_opt(0, 0, 0)?;
    let midnight_local = chrono::Local.from_local_datetime(&midnight).single()?;
    Some((now - midnight_local).num_seconds())
}

/// `chrono::Utc::now().timestamp()`: the current time in whole seconds since the Unix epoch.
/// It depends on the clock; nothing is stated of it.
#[verifier::external_body]
pub(crate) fn unix_timestamp_now() -> i64 {
    chrono::Utc::now().timestamp()
}

} // verus!
