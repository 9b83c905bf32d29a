//! Instants and local calendar days. The time zone of the machine decides where a local day
//! begins; chrono answers that, and the library keeps only the integers it gets back.
use chrono::{Datelike, Local, NaiveDate, TimeZone, Utc};
use vstd::prelude::*;

verus! {

/// The first second that chrono's `DateTime<Utc>` can hold: the start of January 1 of year
/// -262143 (`NaiveDate::MIN`), in seconds since the Unix epoch.
pub const MIN_UTC_TIMESTAMP: i64 = -8334601228800;

/// The last second that chrono's `DateTime<Utc>` can hold: the end of December 31 of year
/// 262142 (`NaiveDate::MAX`), in seconds since the Unix epoch.
pub const MAX_UTC_TIMESTAMP: i64 = 8210266876799;

/// The day number (`num_days_from_ce`) of January 1, 1970.
pub const UNIX_EPOCH_DAY: i64 = 719163;

/// Seconds in a day.
pub const DAY_SECONDS: i64 = 86400;

/// Whether chrono can represent the instant `ts` seconds after the Unix epoch, that is,
/// whether `DateTime::<Utc>::from_timestamp(ts, 0)` gives one.
pub open spec fn utc_timestamp_in_range(ts: int) -> bool {
    MIN_UTC_TIMESTAMP <= ts <= MAX_UTC_TIMESTAMP
}

/// The day number (`num_days_from_ce`) of the UTC date of the instant `ts`.
pub open spec fn utc_day_number(ts: int) -> int {
    ts / (DAY_SECONDS as int) + UNIX_EPOCH_DAY
}

/// The local day of the instant `ts` as chrono gives it: one exactly where chrono can
/// represent the instant, and then within a day of its UTC date, since a local offset is
/// always less than a day.
pub open spec fn local_day_near(day: Option<i32>, ts: int) -> bool {
    &&& (day is Some <==> utc_timestamp_in_range(ts))
    &&& (day matches Some(d) ==> utc_day_number(ts) - 1 <= d <= utc_day_number(ts) + 1)
}

/// chrono's `Local.with_ymd_and_hms(..)` at midnight of the date with day number `day`, taken
/// through `NaiveDate::from_num_days_from_ce_opt` and `Local.from_local_datetime(..).single()`,
/// as a Unix timestamp: the instant at which that local day begins, where the local clock
/// shows midnight exactly once. chrono subtracts the zone's offset, which is less than a day,
/// from that date's midnight; which offset the machine's zone has is not stated.
#[verifier::external_body]
fn local_midnight(day: i32) -> (r: Option<i64>)
    ensures
        r matches Some(s) ==> (day - UNIX_EPOCH_DAY) * DAY_SECONDS - DAY_SECONDS < s < (day
            - UNIX_EPOCH_DAY) * DAY_SECONDS + DAY_SECONDS,
{
    let midnight = NaiveDate::from_num_days_from_ce_opt(day)?.and_hms_opt(0, 0, 0)?;
    let t = Local.from_local_datetime(&midnight).single()?;
    Some(t.timestamp())
}

/// chrono's `Utc::now()`, as a Unix timestamp. It is the time of the call; chrono builds it
/// as `DateTime::from_timestamp(secs, nanos).unwrap()` from the whole seconds elapsed since
/// the epoch, so it is not negative and is an instant that chrono can represent. Which
/// instant it is, is not stated.
#[verifier::external_body]
pub(crate) fn utc_now() -> (r: i64)
    ensures
        r >= 0,
        utc_timestamp_in_range(r as int),
{
    Utc::now().timestamp()
}

/// chrono's `Local.timestamp_opt(ts, 0).single()`, read out through `Datelike` as the day
/// number (`num_days_from_ce`) of its local date. chrono gives an instant exactly where
/// `DateTime::from_timestamp` does, and adds the zone's offset, less than a day, to reach the
/// local date; which offset that is depends on the machine's time zone.
#[verifier::external_body]
pub(crate) fn local_day_number(ts: i64) -> (r: Option<i32>)
    ensures
        local_day_near(r, ts as int),
{
    match Local.timestamp_opt(ts, 0).single() {
        Some(t) => Some(t.num_days_from_ce()),
        None => None,
    }
}

/// chrono's `Local.timestamp_opt(ts, 0).single()`, formatted with `"%m-%d %H:%M"`. chrono
/// gives an instant exactly where `DateTime::from_timestamp` does; the local time depends on
/// the machine's time zone, and chrono documents each of the four fields as two zero-padded
/// digits, so the text is 11 characters with its separators in place.
#[verifier::external_body]
pub(crate) fn local_time_text(ts: i64) -> (r: Option<String>)
    ensures
        r is Some <==> utc_timestamp_in_range(ts as int),
        r matches Some(s) ==> s@.len() == 11 && s@[2] == '-' && s@[5] == ' ' && s@[8] == ':',
{
    match Local.timestamp_opt(ts, 0).single() {
        Some(t) => Some(t.format("%m-%d %H:%M").to_string()),
        None => None,
    }
}

/// An instant, with the start of the local day that it falls in.
#[derive(Debug, Clone, Copy, PartialEq, Eq, Structural)]
pub struct Moment {
    /// Seconds since the Unix epoch.
    pub timestamp: i64,
    /// The timestamp at which the local day of `timestamp` began; where the local clock
    /// does not show that midnight exactly once, `timestamp` itself.
    pub day_start: i64,
}

/// A day start that chrono can give for an instant: less than three days away from it (the
/// local date is within a day of the UTC date, and the local midnight within a day of that
/// date's UTC midnight).
pub open spec fn day_start_near(m: Moment) -> bool {
    m.timestamp - 3 * DAY_SECONDS < m.day_start < m.timestamp + 3 * DAY_SECONDS
}

/// A reading of the clock: an instant at or after the Unix epoch that chrono can represent,
/// with a day start near it.
pub open spec fn is_clock_reading(m: Moment) -> bool {
    &&& m.timestamp >= 0
    &&& utc_timestamp_in_range(m.timestamp as int)
    &&& day_start_near(m)
}

proof fn lemma_midnight_near(ts: int, day: int, s: int)
    requires
        utc_day_number(ts) - 1 <= day <= utc_day_number(ts) + 1,
        (day - UNIX_EPOCH_DAY) * DAY_SECONDS - DAY_SECONDS < s < (day - UNIX_EPOCH_DAY)
            * DAY_SECONDS + DAY_SECONDS,
    ensures
        ts - 3 * DAY_SECONDS < s < ts + 3 * DAY_SECONDS,
{
    let u = ts / 86400;
    assert(u * 86400 <= ts < u * 86400 + 86400) by {
        vstd::arithmetic::div_mod::lemma_fundamental_div_mod(ts, 86400);
    }
}

impl Moment {
    /// A moment from its timestamp and the local midnight that chrono found for its date.
    pub fn from_parts(timestamp: i64, midnight: Option<i64>) -> (r: Moment)
        ensures
            r.timestamp == timestamp,
            r.day_start == match midnight {
                Some(s) => s,
                None => timestamp,
            },
    {
        let day_start = match midnight {
            Some(s) => s,
            None => timestamp,
        };
        Moment { timestamp, day_start }
    }

    /// The moment `ts` seconds after the Unix epoch, with the start of its local day; `None`
    /// where chrono cannot represent it.
    pub fn from_timestamp(ts: i64) -> (r: Option<Moment>)
        ensures
            r is Some <==> utc_timestamp_in_range(ts as int),
            r matches Some(m) ==> m.timestamp == ts && day_start_near(m),
    {
        let day = local_day_number(ts);
        match day {
            Some(d) => {
                let midnight = local_midnight(d);
                proof {
                    if let Some(s) = midnight {
                        lemma_midnight_near(ts as int, d as int, s as int);
                    }
                }
                Some(Moment::from_parts(ts, midnight))
            },
            None => None,
        }
    }

    /// The current moment: an instant at or after the Unix epoch that chrono can represent,
    /// with the start of its local day.
    pub fn now() -> (r: Moment)
        ensures
            is_clock_reading(r),
    {
        let ts = utc_now();
        match Moment::from_timestamp(ts) {
            Some(m) => m,
            None => Moment::from_parts(ts, None),
        }
    }
}

} // verus!
