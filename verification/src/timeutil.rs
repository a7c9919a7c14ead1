//! Calendar dates and the clock.
//!
//! Timestamps are seconds since the Unix epoch; the conversion between a
//! timestamp and its civil date is delegated to chrono behind named
//! results, and calendar validity is stated here.

use vstd::prelude::*;
use chrono::{Datelike, TimeZone};

verus! {

/// One second past the last timestamp of year 9999 in UTC.
pub const YEAR_10000: u64 = 253402300800;

/// What chrono's timestamp-to-date conversion returns: the UTC year,
/// month, and day of an epoch timestamp.
pub uninterp spec fn civil_of(secs: u64) -> (u64, u64, u64);

/// Relies on chrono's `DateTime::from_timestamp` and `Datelike`: the UTC
/// year, month, and day of an epoch timestamp before the year 10000.
#[verifier::external_body]
pub(crate) fn civil_from_secs(secs: u64) -> (r: (u64, u64, u64))
    requires
        secs < YEAR_10000,
    ensures
        r == civil_of(secs),
        1970 <= r.0 <= 9999,
        1 <= r.1 <= 12,
        1 <= r.2 <= 31,
{
    match chrono::DateTime::<chrono::Utc>::from_timestamp(secs as i64, 0) {
        Some(dt) => (dt.year() as u64, dt.month() as u64, dt.day() as u64),
        None => (1970, 1, 1),
    }
}

/// What chrono's date-to-timestamp conversion returns: the epoch
/// timestamp of midnight UTC on the given date.
pub uninterp spec fn epoch_of_civil(y: u64, m: u64, d: u64) -> u64;

/// Relies on chrono's `TimeZone::with_ymd_and_hms` on `Utc`: the epoch
/// timestamp of midnight UTC on a valid date between 1970 and 9999.
#[verifier::external_body]
pub(crate) fn civil_to_epoch_secs(y: u64, m: u64, d: u64) -> (r: u64)
    requires
        valid_civil_date(y, m, d),
    ensures
        r == epoch_of_civil(y, m, d),
        r < YEAR_10000,
{
    match chrono::Utc.with_ymd_and_hms(y as i32, m as u32, d as u32, 0, 0, 0) {
        chrono::LocalResult::Single(dt) => dt.timestamp() as u64,
        _ => 0,
    }
}

/// Relies on std's `SystemTime::now` and `duration_since`: the clock's
/// seconds since the Unix epoch, zero for a clock before the epoch.
/// Nothing is promised of the value.
#[verifier::external_body]
pub(crate) fn now_unix_secs() -> u64 {
    match std::time::SystemTime::now().duration_since(std::time::UNIX_EPOCH) {
        Ok(d) => d.as_secs(),
        Err(_) => 0,
    }
}

/// The clock's seconds since the Unix epoch, clamped below the year
/// 10000 so that it always has a civil date.
pub(crate) fn now_secs_clamped() -> (r: u64)
    ensures
        r < YEAR_10000,
{
    let now = now_unix_secs();
    if now < YEAR_10000 {
        now
    } else {
        YEAR_10000 - 1
    }
}

/// A Gregorian leap year.
pub open spec fn is_leap_year(y: u64) -> bool {
    (y % 4 == 0 && y % 100 != 0) || y % 400 == 0
}

/// The number of days in the given month.
pub open spec fn days_in_month(y: u64, m: u64) -> u64 {
    if m == 2 {
        if is_leap_year(y) {
            29
        } else {
            28
        }
    } else if m == 4 || m == 6 || m == 9 || m == 11 {
        30
    } else {
        31
    }
}

/// A valid calendar date between the epoch and the year 9999.
pub open spec fn valid_civil_date(y: u64, m: u64, d: u64) -> bool {
    &&& 1970 <= y <= 9999
    &&& 1 <= m <= 12
    &&& 1 <= d <= days_in_month(y, m)
}

/// Whether `(y, m, d)` is a valid calendar date between the epoch and
/// the year 9999.
pub fn check_civil_date(y: u64, m: u64, d: u64) -> (r: bool)
    ensures
        r == valid_civil_date(y, m, d),
{
    if !(1970 <= y && y <= 9999 && 1 <= m && m <= 12 && d >= 1) {
        return false;
    }
    let dim: u64 = if m == 2 {
        if (y % 4 == 0 && y % 100 != 0) || y % 400 == 0 {
            29
        } else {
            28
        }
    } else if m == 4 || m == 6 || m == 9 || m == 11 {
        30
    } else {
        31
    };
    d <= dim
}

} // verus!
