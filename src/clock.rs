//! The calendar day on which a file was last modified.
use crate::calendar::{is_leap_year, Day};
use crate::error::OrganizeError;
use chrono::{Datelike, TimeZone};
use vstd::prelude::*;

verus! {

/// The largest distance from the Unix epoch, in seconds, of a modification
/// time that is turned into a day (about 31,700 years).
pub const TIMESTAMP_LIMIT: i64 = 1_000_000_000_000;

/// The seconds in one day; a fixed offset from UTC lies strictly within it.
pub const SECONDS_PER_DAY: i32 = 86_400;

/// The days from 0000-01-01 to the first day of year `y` (negative for
/// years before 0), in the proleptic Gregorian calendar.
pub open spec fn days_before_year(y: int) -> int {
    365 * y + (y + 3) / 4 - (y + 99) / 100 + (y + 399) / 400
}

/// The days of year `y` before the first day of month `m`.
pub open spec fn days_before_month(y: int, m: int) -> int {
    let leap: int = if is_leap_year(y) { 1 } else { 0 };
    if m <= 1 { 0 }
    else if m == 2 { 31 }
    else if m == 3 { 59 + leap }
    else if m == 4 { 90 + leap }
    else if m == 5 { 120 + leap }
    else if m == 6 { 151 + leap }
    else if m == 7 { 181 + leap }
    else if m == 8 { 212 + leap }
    else if m == 9 { 243 + leap }
    else if m == 10 { 273 + leap }
    else if m == 11 { 304 + leap }
    else { 334 + leap }
}

/// The number of days from 1970-01-01 to `d`, negative before it.
pub open spec fn day_number(d: Day) -> int {
    days_before_year(d.year as int) + days_before_month(d.year as int, d.month as int)
        + d.day as int - 1 - days_before_year(1970)
}

/// The number (as in `day_number`) of the day on which the instant `secs`
/// seconds after the Unix epoch falls, on a clock `offset` seconds ahead of
/// UTC.
pub open spec fn day_of_instant(secs: int, offset: int) -> int {
    (secs + offset) / (SECONDS_PER_DAY as int)
}

/// `d` is the day of the instant `secs` on a clock whose offset from UTC
/// is under one day.
pub open spec fn is_day_of_instant(secs: int, d: Day) -> bool {
    exists|o: int|
        -SECONDS_PER_DAY < o < SECONDS_PER_DAY && day_number(d) == #[trigger] day_of_instant(secs, o)
}

/// Relies on chrono's `Local::timestamp_opt` and `DateTime::date_naive`: the
/// date, in the process's time zone, of an instant given in seconds since the
/// Unix epoch. Within the limit `timestamp_opt` always gives a single
/// instant, `Local` turns it into a `FixedOffset` under one day, and
/// `date_naive` is the calendar date of the instant shifted by that offset;
/// which offset is read from the machine. chrono panics where the machine's
/// zone data names no local time type for the instant; no argument can rule
/// that out.
#[verifier::external_body]
fn local_date(secs: i64) -> (r: Day)
    requires
        -TIMESTAMP_LIMIT <= secs <= TIMESTAMP_LIMIT,
    ensures
        r.is_calendar_date(),
        is_day_of_instant(secs as int, r),
{
    let nd = chrono::Local.timestamp_opt(secs, 0).single().unwrap().date_naive();
    Day { year: nd.year(), month: nd.month(), day: nd.day() }
}

/// Relies on chrono's `FixedOffset::east_opt`, `TimeZone::timestamp_opt` and
/// `DateTime::date_naive`: an offset under one day is accepted, an instant
/// within the limit lies in chrono's range, and the date read at that offset
/// is the calendar date of the instant shifted by the offset.
#[verifier::external_body]
fn offset_date(secs: i64, offset: i32) -> (r: Day)
    requires
        -TIMESTAMP_LIMIT <= secs <= TIMESTAMP_LIMIT,
        -SECONDS_PER_DAY < offset < SECONDS_PER_DAY,
    ensures
        r.is_calendar_date(),
        day_number(r) == day_of_instant(secs as int, offset as int),
{
    let zone = chrono::FixedOffset::east_opt(offset).unwrap();
    let nd = zone.timestamp_opt(secs, 0).unwrap().date_naive();
    Day { year: nd.year(), month: nd.month(), day: nd.day() }
}

/// Accept a calendar date as a day only where its year has four digits.
pub fn four_digit_day(d: Day) -> (r: Result<Day, OrganizeError>)
    requires
        d.is_calendar_date(),
    ensures
        r is Ok <==> 0 <= d.year <= 9999,
        r matches Ok(e) ==> e == d && e.wf(),
        r matches Err(e) ==> e == OrganizeError::MetadataReadFailure,
{
    if 0 <= d.year && d.year <= 9999 {
        Ok(d)
    } else {
        Err(OrganizeError::MetadataReadFailure)
    }
}

/// The local calendar day of a modification time given in seconds since the
/// Unix epoch, in the process's time zone.
pub fn get_file_day(secs: i64) -> (r: Result<Day, OrganizeError>)
    ensures
        (secs < -TIMESTAMP_LIMIT || secs > TIMESTAMP_LIMIT) ==> r == Err::<Day, OrganizeError>(
            OrganizeError::MetadataReadFailure,
        ),
        -TIMESTAMP_LIMIT <= secs <= TIMESTAMP_LIMIT ==> exists|c: Day|
            {
                &&& c.is_calendar_date()
                &&& #[trigger] is_day_of_instant(secs as int, c)
                &&& (r is Ok <==> 0 <= c.year <= 9999)
                &&& (r matches Ok(d) ==> d == c)
            },
        r matches Ok(d) ==> d.wf(),
        r matches Err(e) ==> e == OrganizeError::MetadataReadFailure,
{
    if secs < -TIMESTAMP_LIMIT || secs > TIMESTAMP_LIMIT {
        return Err(OrganizeError::MetadataReadFailure);
    }
    let c = local_date(secs);
    let r = four_digit_day(c);
    assert(is_day_of_instant(secs as int, c));
    r
}

/// The calendar day of a modification time given in seconds since the Unix
/// epoch, on a clock `offset_secs` seconds ahead of UTC.
pub fn get_file_day_at(secs: i64, offset_secs: i32) -> (r: Result<Day, OrganizeError>)
    ensures
        !(-TIMESTAMP_LIMIT <= secs <= TIMESTAMP_LIMIT && -SECONDS_PER_DAY < offset_secs
            < SECONDS_PER_DAY) ==> r == Err::<Day, OrganizeError>(OrganizeError::MetadataReadFailure),
        (-TIMESTAMP_LIMIT <= secs <= TIMESTAMP_LIMIT && -SECONDS_PER_DAY < offset_secs
            < SECONDS_PER_DAY) ==> exists|c: Day|
            {
                &&& c.is_calendar_date()
                &&& #[trigger] day_number(c) == day_of_instant(secs as int, offset_secs as int)
                &&& (r is Ok <==> 0 <= c.year <= 9999)
                &&& (r matches Ok(d) ==> d == c)
            },
        r matches Ok(d) ==> d.wf(),
        r matches Err(e) ==> e == OrganizeError::MetadataReadFailure,
{
    if secs < -TIMESTAMP_LIMIT || secs > TIMESTAMP_LIMIT || offset_secs <= -SECONDS_PER_DAY
        || offset_secs >= SECONDS_PER_DAY {
        return Err(OrganizeError::MetadataReadFailure);
    }
    let c = offset_date(secs, offset_secs);
    let r = four_digit_day(c);
    assert(day_number(c) == day_of_instant(secs as int, offset_secs as int));
    r
}

/// Whole seconds since the Unix epoch, rounded down, of an instant given as
/// its distance from the epoch (`secs` and `subsec_nanos`) and whether it
/// lies before the epoch; `None` where that does not fit in an `i64`.
pub fn epoch_seconds(before_epoch: bool, secs: u64, subsec_nanos: u32) -> (r: Option<i64>)
    ensures
        ({
            let exact = if !before_epoch {
                secs as int
            } else if subsec_nanos == 0 {
                -(secs as int)
            } else {
                -(secs as int) - 1
            };
            &&& r is Some <==> i64::MIN <= exact <= i64::MAX
            &&& r matches Some(v) ==> v == exact
        }),
{
    if secs > i64::MAX as u64 {
        if before_epoch && subsec_nanos == 0 && secs == i64::MAX as u64 + 1 {
            return Some(i64::MIN);
        }
        return None;
    }
    let s = secs as i64;
    if !before_epoch {
        Some(s)
    } else if subsec_nanos == 0 {
        Some(-s)
    } else {
        Some(-s - 1)
    }
}

} // verus!
