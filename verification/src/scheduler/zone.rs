//! Time zones by name, and the wall clock in them.
use chrono::{Datelike, TimeZone, Timelike};
use vstd::prelude::*;
use crate::clock;
use crate::clock::LocalParts;
use crate::text;
use crate::text::trim;

verus! {

/// Whether the zone database has a zone of this name.
pub uninterp spec fn zone_known(name: Seq<char>) -> bool;

/// What the wall clock of a zone shows at an instant: the day counted from 1 January
/// of year 1, the day of the week (Monday being 0) and the hour.
pub uninterp spec fn zone_reading(name: Seq<char>, at: i64) -> Option<LocalParts>;

/// The first instant at which the wall clock of a zone shows a full hour of a day.
pub uninterp spec fn zone_instant(name: Seq<char>, ce_day: int, hour: int) -> Option<i64>;

/// The weekday of a day counted from 1 January of year 1, Monday being 1.
pub open spec fn iso_weekday(ce_day: int) -> int {
    (ce_day - 1) % 7 + 1
}

/// Calls `chrono_tz::Tz`'s `from_str`, which looks the name up in the database that is
/// part of that crate. UTC is in it.
#[verifier::external_body]
fn find_zone(name: &str) -> (r: bool)
    ensures
        r == zone_known(name@),
        name@ == "UTC"@ ==> r,
{
    name.parse::<chrono_tz::Tz>().is_ok()
}

/// Calls `chrono::TimeZone::timestamp_millis_opt` and `DateTime::with_timezone`, and
/// reads the result with `Datelike::num_days_from_ce`, `Datelike::weekday` and
/// `Timelike::hour`. There is a reading where the zone is known and the instant has a
/// calendar date; no zone is a day off UTC, so its day is at most one beyond the
/// calendar's ends. In UTC the reading is the one without an offset.
#[verifier::external_body]
fn read_clock(name: &str, at: i64) -> (r: Option<LocalParts>)
    ensures
        r == zone_reading(name@, at),
        (r is Some) == (zone_known(name@) && clock::representable(at as int)),
        r is Some ==> r->0.weekday < 7 && r->0.hour < 24,
        r is Some ==> -95_746_130 <= r->0.ce_day <= 95_745_400,
        r is Some && name@ == "UTC"@ ==> r == clock::parts_of(at, 0),
{
    let tz = name.parse::<chrono_tz::Tz>().ok()?;
    let utc = chrono::Utc.timestamp_millis_opt(at).single()?;
    let local = utc.with_timezone(&tz);
    Some(LocalParts {
        ce_day: local.num_days_from_ce(),
        weekday: local.weekday().num_days_from_monday(),
        hour: local.hour(),
    })
}

/// Calls `chrono::NaiveDate::from_num_days_from_ce_opt` and `NaiveDate::and_hms_opt`,
/// and maps the wall clock time with `chrono::TimeZone::from_local_datetime` and
/// `MappedLocalTime::earliest`. There is none for an hour past 23, and where there is
/// one, the wall clock shows that day and hour at it. In UTC every hour of a day of the
/// calendar has its instant.
#[verifier::external_body]
fn find_instant(name: &str, ce_day: i32, hour: u32) -> (r: Option<i64>)
    ensures
        r == zone_instant(name@, ce_day as int, hour as int),
        hour >= 24 ==> r is None,
        name@ == "UTC"@ && hour < 24 && -95_746_129 <= ce_day <= 95_745_399 ==> r == Some(
            ((ce_day - 719_163) * 86_400_000 + hour * 3_600_000) as i64,
        ),
        r is Some ==> zone_reading(name@, r->0) == Some(
            (LocalParts { ce_day, weekday: (iso_weekday(ce_day as int) - 1) as u32, hour }),
        ),
{
    let tz = name.parse::<chrono_tz::Tz>().ok()?;
    let date = chrono::NaiveDate::from_num_days_from_ce_opt(ce_day)?;
    let naive = date.and_hms_opt(hour, 0, 0)?;
    let mapped = tz.from_local_datetime(&naive).earliest()?;
    Some(mapped.timestamp_millis())
}

/// A time zone.
#[derive(Debug, PartialEq, Eq)]
pub struct Zone {
    pub name: String,
}

impl View for Zone {
    type V = Seq<char>;

    open spec fn view(&self) -> Seq<char> {
        self.name@
    }
}

pub open spec fn zone_of(name: Seq<char>) -> Seq<char> {
    if zone_known(text::trim_of(name)) {
        text::trim_of(name)
    } else {
        "UTC"@
    }
}

/// The zone of a name; UTC for a name that is none.
pub fn zone_for(name: &str) -> (r: Zone)
    ensures
        r@ == zone_of(name@),
        zone_known(r@),
{
    let wanted = trim(name);
    if find_zone(wanted) {
        Zone { name: wanted.to_owned() }
    } else {
        let utc = find_zone("UTC");
        assert(utc);
        Zone { name: "UTC".to_owned() }
    }
}

impl Zone {
    pub fn read(&self, at: i64) -> (r: Option<LocalParts>)
        ensures
            r == zone_reading(self@, at),
            r is Some <==> zone_known(self@) && clock::representable(at as int),
            r is Some ==> r->0.weekday < 7 && r->0.hour < 24,
            r is Some ==> -95_746_130 <= r->0.ce_day <= 95_745_400,
            r is Some && self@ == "UTC"@ ==> r == clock::parts_of(at, 0),
    {
        read_clock(self.name.as_str(), at)
    }
}

/// The ISO weekday, Monday being 1, and the hour that the wall clock shows.
pub fn local_weekday_hour(zone: &Zone, at: i64) -> (r: Option<(u8, u8)>)
    ensures
        r == weekday_hour_of(zone@, at),
        match r {
            Some((d, h)) => 1 <= d <= 7 && h < 24,
            None => true,
        },
{
    match zone.read(at) {
        Some(p) => Some((p.weekday as u8 + 1, p.hour as u8)),
        None => None,
    }
}

/// The first instant of an hour of a day; where the clock skips that hour, the first
/// of the next.
pub fn local_instant(zone: &Zone, ce_day: i32, hour: u8) -> (r: Option<i64>)
    ensures
        r == slot_instant(zone@, ce_day as int, hour as int),
        zone@ == "UTC"@ && hour < 24 && -95_746_129 <= ce_day <= 95_745_399 ==> r == Some(
            ((ce_day - 719_163) * 86_400_000 + hour * 3_600_000) as i64,
        ),
        r is Some ==> zone_shows(zone@, r->0, ce_day as int, hour as int),
{
    match find_instant(zone.name.as_str(), ce_day, hour as u32) {
        Some(at) => Some(at),
        None => find_instant(zone.name.as_str(), ce_day, hour as u32 + 1),
    }
}

pub open spec fn weekday_hour_of(zone: Seq<char>, at: i64) -> Option<(u8, u8)> {
    match zone_reading(zone, at) {
        Some(p) => Some(((p.weekday + 1) as u8, p.hour as u8)),
        None => None,
    }
}

pub open spec fn slot_instant(zone: Seq<char>, ce_day: int, hour: int) -> Option<i64> {
    match zone_instant(zone, ce_day, hour) {
        Some(at) => Some(at),
        None => zone_instant(zone, ce_day, hour + 1),
    }
}

/// The wall clock shows this day, and this hour unless the day skips it.
pub open spec fn zone_shows(zone: Seq<char>, at: i64, ce_day: int, hour: int) -> bool {
    &&& zone_reading(zone, at) matches Some(p)
    &&& p.ce_day == ce_day
    &&& p.weekday + 1 == iso_weekday(ce_day)
    &&& p.hour == hour || (p.hour == hour + 1 && zone_instant(zone, ce_day, hour) is None)
}

/// The weekday of a day is the one that instants of that day have.
pub proof fn weekdays_agree(at: int)
    ensures
        iso_weekday(clock::ce_day_of(at)) == clock::weekday_of(at) + 1,
{
    let d = at / 86_400_000;
    assert((d + 719_162) % 7 == (d + 3) % 7);
}

/// A name that the database knows, trimmed, is the zone; any other stands for UTC.
pub proof fn an_unknown_zone_is_utc(name: Seq<char>)
    ensures
        zone_known(text::trim_of(name)) ==> zone_of(name) == text::trim_of(name),
        !zone_known(text::trim_of(name)) ==> zone_of(name) == "UTC"@,
{
}

/// Weekdays are numbered from Monday, which is 1, to Sunday, which is 7, and hours are
/// what the wall clock shows.
pub proof fn weekdays_are_numbered_from_monday(zone: Seq<char>, at: i64)
    requires
        zone_reading(zone, at) is Some,
        zone_reading(zone, at)->0.weekday < 7,
        zone_reading(zone, at)->0.hour < 24,
    ensures
        weekday_hour_of(zone, at) matches Some((day, hour)) && day == zone_reading(
            zone,
            at,
        )->0.weekday + 1 && hour == zone_reading(zone, at)->0.hour && 1 <= day <= 7,
{
}

/// The first day counted was a Monday, and every seventh day has the same weekday.
pub proof fn the_week_has_seven_days(ce_day: int)
    ensures
        1 <= iso_weekday(ce_day) <= 7,
        iso_weekday(1) == 1,
        iso_weekday(ce_day + 7) == iso_weekday(ce_day),
        iso_weekday(ce_day) < 7 ==> iso_weekday(ce_day + 1) == iso_weekday(ce_day) + 1,
{
}

/// An hour that a day has is found where it begins; one that the day skips is taken to
/// be the hour after it, and where there is none either, there is no instant.
pub proof fn a_skipped_hour_is_the_next_one(zone: Seq<char>, ce_day: int, hour: int)
    ensures
        zone_instant(zone, ce_day, hour) is Some ==> slot_instant(zone, ce_day, hour)
            == zone_instant(zone, ce_day, hour),
        zone_instant(zone, ce_day, hour) is None ==> slot_instant(zone, ce_day, hour)
            == zone_instant(zone, ce_day, hour + 1),
{
}

/// Where an hour of a day is found, the wall clock shows that day, and that hour unless
/// the day skips it: then it shows the next.
pub proof fn the_clock_shows_what_was_looked_for(
    zone: Seq<char>,
    at: i64,
    ce_day: int,
    hour: int,
)
    requires
        zone_shows(zone, at, ce_day, hour),
    ensures
        zone_reading(zone, at) is Some,
        zone_reading(zone, at)->0.ce_day == ce_day,
        zone_reading(zone, at)->0.weekday == (ce_day - 1) % 7,
        zone_instant(zone, ce_day, hour) is Some ==> zone_reading(zone, at)->0.hour == hour,
        zone_instant(zone, ce_day, hour) is None ==> hour <= zone_reading(zone, at)->0.hour <= hour
            + 1,
{
}

} // verus!
