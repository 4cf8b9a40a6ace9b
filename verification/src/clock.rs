//! The local day and hour of an instant, under a fixed offset from UTC.
use chrono::{Datelike, Timelike};
use vstd::prelude::*;

verus! {

/// The first millisecond that a calendar date exists for (year -262143).
pub const MIN_MILLIS: i64 = -8_334_601_228_800_000;
/// The last millisecond that a calendar date exists for (year 262142).
pub const MAX_MILLIS: i64 = 8_210_266_876_799_999;
pub const DAY_MS: i64 = 86_400_000;
/// The number of 1 January 1970 among the days counted from 1 January of year 1.
pub const EPOCH_CE_DAY: i64 = 719_163;

pub open spec fn representable(t: int) -> bool {
    MIN_MILLIS <= t <= MAX_MILLIS
}

/// An instant moved by an offset, so that its UTC reading is the local one.
pub open spec fn shifted(at_ms: i64, utc_offset_minutes: i32) -> int {
    at_ms + utc_offset_minutes * 60_000
}

/// The day that a reading falls on, counted from 1 January of year 1.
pub open spec fn ce_day_of(t: int) -> int {
    t / 86_400_000 + 719_163
}

pub open spec fn hour_of(t: int) -> int {
    (t % 86_400_000) / 3_600_000
}

/// The day of the week, Monday being 0.
pub open spec fn weekday_of(t: int) -> int {
    (t / 86_400_000 + 3) % 7
}

/// A local reading: the day counted from 1 January of year 1, the day of the week
/// (Monday being 0) and the hour.
#[derive(Debug, Clone, Copy, PartialEq, Eq, Structural)]
pub struct LocalParts {
    pub ce_day: i32,
    pub weekday: u32,
    pub hour: u32,
}

/// Whether an instant and its local reading have calendar dates.
pub open spec fn readable(at_ms: i64, utc_offset_minutes: i32) -> bool {
    representable(at_ms as int) && representable(shifted(at_ms, utc_offset_minutes))
}

/// The local reading of an instant.
pub open spec fn parts_of(at_ms: i64, utc_offset_minutes: i32) -> Option<LocalParts> {
    if readable(at_ms, utc_offset_minutes) {
        let t = shifted(at_ms, utc_offset_minutes);
        Some(
            LocalParts {
                ce_day: ce_day_of(t) as i32,
                weekday: weekday_of(t) as u32,
                hour: hour_of(t) as u32,
            },
        )
    } else {
        None
    }
}

/// Calls `chrono::DateTime::from_timestamp_millis`, adds `chrono::TimeDelta::minutes`
/// of the offset, and reads the sum with `Datelike::num_days_from_ce`,
/// `Datelike::weekday` and `Timelike::hour`. Both instants are within chrono's range
/// (outside of it the addition panics), so there is a reading, and it is the day,
/// weekday and hour by floor division of the milliseconds.
#[verifier::external_body]
fn chrono_parts(at_ms: i64, utc_offset_minutes: i32) -> (r: Option<LocalParts>)
    requires
        readable(at_ms, utc_offset_minutes),
    ensures
        r == parts_of(at_ms, utc_offset_minutes),
{
    chrono::DateTime::from_timestamp_millis(at_ms).map(|dt| {
        let l = (dt + chrono::TimeDelta::minutes(i64::from(utc_offset_minutes))).naive_utc();
        LocalParts {
            ce_day: l.num_days_from_ce(),
            weekday: l.weekday().num_days_from_monday(),
            hour: l.hour(),
        }
    })
}

/// The local reading of an instant; `None` where no calendar date exists for it.
pub fn local_parts(at_ms: i64, utc_offset_minutes: i32) -> (r: Option<LocalParts>)
    ensures
        r == parts_of(at_ms, utc_offset_minutes),
{
    let t: i128 = at_ms as i128 + utc_offset_minutes as i128 * 60_000;
    if at_ms < MIN_MILLIS || at_ms > MAX_MILLIS || t < MIN_MILLIS as i128 || t > MAX_MILLIS as i128 {
        return None;
    }
    chrono_parts(at_ms, utc_offset_minutes)
}

pub open spec fn local_hour_of(at_ms: i64, utc_offset_minutes: i32) -> u32 {
    match parts_of(at_ms, utc_offset_minutes) {
        Some(p) => p.hour,
        None => 0,
    }
}

/// The local hour of the day; hour 0 where no calendar date exists.
pub fn local_hour(at_ms: i64, utc_offset_minutes: i32) -> (r: u32)
    ensures
        r == local_hour_of(at_ms, utc_offset_minutes),
        r < 24,
{
    match local_parts(at_ms, utc_offset_minutes) {
        Some(p) => p.hour,
        None => 0,
    }
}

/// The parts of a reading are in their ranges.
pub proof fn parts_are_in_range(at_ms: i64, utc_offset_minutes: i32)
    ensures
        match parts_of(at_ms, utc_offset_minutes) {
            Some(p) => {
                &&& p.hour < 24
                &&& p.weekday < 7
                &&& -95_746_129 <= p.ce_day <= 95_745_399
                &&& p.ce_day == ce_day_of(shifted(at_ms, utc_offset_minutes))
            },
            None => true,
        },
{
}

/// A later instant is not on an earlier day.
pub proof fn days_follow_instants(a: i64, b: i64, utc_offset_minutes: i32)
    requires
        a <= b,
        readable(a, utc_offset_minutes),
        readable(b, utc_offset_minutes),
    ensures
        parts_of(a, utc_offset_minutes)->0.ce_day <= parts_of(b, utc_offset_minutes)->0.ce_day,
{
    parts_are_in_range(a, utc_offset_minutes);
    parts_are_in_range(b, utc_offset_minutes);
    let x = shifted(a, utc_offset_minutes);
    let y = shifted(b, utc_offset_minutes);
    assert(x / 86_400_000 <= y / 86_400_000);
}

/// How a day is written, `YYYY-MM-DD`.
pub uninterp spec fn ce_day_text(ce_day: int) -> Option<Seq<char>>;

/// Calls `chrono::NaiveDate::from_num_days_from_ce_opt` and prints the date with
/// `NaiveDate::format` as `%Y-%m-%d`. It depends on the day alone, and there is a
/// date for every day that a reading can fall on.
#[verifier::external_body]
pub(crate) fn ce_day_label(ce_day: i32) -> (r: Option<String>)
    ensures
        crate::text::opt_text(r) == ce_day_text(ce_day as int),
        -95_746_129 <= ce_day <= 95_745_399 ==> r is Some,
{
    let date = chrono::NaiveDate::from_num_days_from_ce_opt(ce_day);
    date.map(|d| d.format("%Y-%m-%d").to_string())
}

/// A reading counts from the start of 1 January of year 1: whole days, then whole hours
/// of the day, then less than an hour. That first day was a Monday, and the days of the
/// week follow each other.
pub proof fn a_reading_counts_days_and_hours(at_ms: i64, utc_offset_minutes: i32)
    requires
        readable(at_ms, utc_offset_minutes),
    ensures
        parts_of(at_ms, utc_offset_minutes) is Some,
        ({
            let p = parts_of(at_ms, utc_offset_minutes)->0;
            let epoch = 719_162 * 86_400_000;
            let rest = epoch + at_ms + utc_offset_minutes * 60_000 - (p.ce_day - 1) * 86_400_000
                - p.hour * 3_600_000;
            &&& 0 <= rest < 3_600_000
            &&& p.hour < 24
            &&& p.weekday == (p.ce_day - 1) % 7
            &&& local_hour_of(at_ms, utc_offset_minutes) == p.hour
        }),
{
    parts_are_in_range(at_ms, utc_offset_minutes);
    let t = shifted(at_ms, utc_offset_minutes);
    let d = t / 86_400_000;
    assert((d + 719_162) % 7 == (d + 3) % 7);
}

/// An instant is read where a calendar date exists for it and for its local reading,
/// from year -262143 to year 262142; elsewhere the hour counts as midnight's.
pub proof fn only_dated_instants_are_read(at_ms: i64, utc_offset_minutes: i32)
    ensures
        ({
            let local = at_ms + utc_offset_minutes * 60_000;
            let first = -8_334_601_228_800_000int;
            let last = 8_210_266_876_799_999int;
            let dated = first <= at_ms <= last && first <= local <= last;
            &&& parts_of(at_ms, utc_offset_minutes) is Some <==> dated
            &&& !dated ==> local_hour_of(at_ms, utc_offset_minutes) == 0
        }),
{
}

/// Two instants a day apart are read at the same hour, on days that follow each other.
pub proof fn a_day_later_is_the_next_day(a: i64, b: i64, utc_offset_minutes: i32)
    requires
        b == a + DAY_MS,
        readable(a, utc_offset_minutes),
        readable(b, utc_offset_minutes),
    ensures
        ({
            let p = parts_of(a, utc_offset_minutes)->0;
            let q = parts_of(b, utc_offset_minutes)->0;
            q.ce_day == p.ce_day + 1 && q.hour == p.hour && q.weekday == (p.weekday + 1) % 7
        }),
{
    parts_are_in_range(a, utc_offset_minutes);
    parts_are_in_range(b, utc_offset_minutes);
    let x = shifted(a, utc_offset_minutes);
    let y = shifted(b, utc_offset_minutes);
    assert(y / 86_400_000 == x / 86_400_000 + 1);
    assert(y % 86_400_000 == x % 86_400_000);
}

} // verus!
