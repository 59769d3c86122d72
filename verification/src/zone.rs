//! Instants: wall-clock times placed in a named time zone.

use crate::civil::CalendarDate;
use crate::civil::Day;
use crate::civil::Wall;
use crate::civil::WallTime;
use crate::civil::first_second;
use crate::civil::last_second;
use crate::civil::lemma_inside_seconds;
use chrono::Datelike;
use chrono::TimeZone;
use chrono::Timelike;
use vstd::prelude::*;

verus! {

/// The time zone in which the dates and times of a diary are written.
pub const ZONE: &'static str = "Europe/Helsinki";

/// The instant that the wall-clock time `at` denotes in the time zone named
/// `zone`, in seconds since 1 January 1970, 00:00 UTC, as
/// `chrono::TimeZone::from_local_datetime` of `chrono_tz::Tz` finds it:
/// nothing where the zone is unknown, skipped that time, or had it twice.
pub uninterp spec fn zone_instant(zone: Seq<char>, at: Wall) -> Option<int>;

/// Whether the time zone named `zone` has the day, as
/// `chrono::TimeZone::from_local_date` of `chrono_tz::Tz` finds it.
pub uninterp spec fn zone_has_day(zone: Seq<char>, day: Day) -> bool;

/// An instant, with the wall-clock time that it has in the time zone of
/// the running process.
#[derive(Clone, Copy, Debug, PartialEq, Eq, Structural)]
pub struct Moment {
    seconds: i64,
    local: WallTime,
}

/// An instant as plain numbers.
pub struct Instant {
    /// Seconds since 1 January 1970, 00:00 UTC.
    pub seconds: int,
    /// The wall-clock time of the instant where the process runs.
    pub local: Wall,
}

impl View for Moment {
    type V = Instant;

    closed spec fn view(&self) -> Instant {
        Instant { seconds: self.seconds as int, local: self.local@ }
    }
}

impl Moment {
    /// The instant `seconds` after 1 January 1970, 00:00 UTC, shown as
    /// `local`.
    pub fn from_parts(seconds: i64, local: WallTime) -> (m: Moment)
        ensures
            m@ == (Instant { seconds: seconds as int, local: local@ }),
    {
        Moment { seconds, local }
    }

    /// The instant in seconds since 1 January 1970, 00:00 UTC.
    pub fn seconds(&self) -> (s: i64)
        ensures
            s == self@.seconds,
    {
        self.seconds
    }

    /// The wall-clock time of the instant where the process runs.
    pub fn local(&self) -> (w: WallTime)
        ensures
            w@ == self@.local,
            w@.is_real(),
    {
        proof {
            use_type_invariant(&self.local);
        }
        self.local
    }

    /// The moment that placing a wall-clock time comes to, given what came
    /// of its two steps: `seconds` is the instant that the time zone makes
    /// of it, if it makes one, and `local` the wall-clock time that the
    /// process shows that instant as, if it can show it. There is a moment
    /// exactly if both are there, and it holds the two.
    pub fn shown(seconds: Option<i64>, local: Option<WallTime>) -> (r: Option<Moment>)
        ensures
            r is Some <==> seconds is Some && local is Some,
            r matches Some(m) ==> m@ == (Instant {
                seconds: seconds->0 as int,
                local: local->0@,
            }),
    {
        match (seconds, local) {
            (Some(seconds), Some(local)) => Some(Moment::from_parts(seconds, local)),
            _ => None,
        }
    }

    /// The instant that `at` denotes in the time zone named `zone`.
    ///
    /// There is none where the zone has no such time or has it twice.
    /// Where it has the time once, there is a moment, unless the time lies
    /// in the first or the last of the supported years and the instant
    /// cannot be shown as a wall-clock time of this process.
    pub fn in_zone(zone: &str, at: WallTime) -> (r: Option<Moment>)
        ensures
            r matches Some(m) ==> zone_instant(zone@, at@) == Some(m@.seconds) && m@.local.is_real(),
            zone_instant(zone@, at@) is None ==> r is None,
            zone_instant(zone@, at@) is Some && at@.day.is_inside() ==> r is Some,
    {
        let seconds = zone_seconds(zone, at);
        let local = match seconds {
            Some(instant) => local_wall(instant),
            None => None,
        };
        proof {
            use_type_invariant(&at);
            if at@.day.is_inside() {
                lemma_inside_seconds(at@);
            }
            if let Some(wall) = local {
                use_type_invariant(&wall);
            }
        }
        Moment::shown(seconds, local)
    }

    /// Two moments are the same exactly if they stand for the same instant
    /// and local time.
    pub proof fn lemma_same_view(self, other: Moment)
        ensures
            self@ == other@ <==> self == other,
    {
        self.local.lemma_same_view(other.local);
    }
}

/// Tells whether the time zone named `zone` has the day `day`.
pub fn day_in_zone(zone: &str, day: CalendarDate) -> (b: bool)
    ensures
        b == zone_has_day(zone@, day@),
{
    has_day(zone, day)
}

/// `chrono::TimeZone::from_local_datetime` of the `chrono_tz::Tz` that
/// `zone` names, then `chrono::DateTime::timestamp`. The instant is the
/// wall-clock time less the offset of the zone from UTC, and that offset
/// is less than a day.
#[verifier::external_body]
fn zone_seconds(zone: &str, at: WallTime) -> (r: Option<i64>)
    ensures
        r is Some <==> zone_instant(zone@, at@) is Some,
        r matches Some(s) ==> zone_instant(zone@, at@) == Some(s as int),
        r matches Some(s) ==> -86400 < s - at@.seconds() < 86400,
{
    let tz = zone.parse::<chrono_tz::Tz>().ok()?;
    let naive = chrono::NaiveDate::from_ymd_opt(at.date.year, at.date.month, at.date.day)?
        .and_hms_opt(at.hour, at.minute, at.second)?;
    tz.from_local_datetime(&naive).single().map(|found| found.timestamp())
}

/// `chrono::TimeZone::from_local_date` of the `chrono_tz::Tz` that `zone`
/// names.
#[allow(deprecated)]
#[verifier::external_body]
fn has_day(zone: &str, day: CalendarDate) -> (b: bool)
    ensures
        b == zone_has_day(zone@, day@),
{
    match (
        zone.parse::<chrono_tz::Tz>(),
        chrono::NaiveDate::from_ymd_opt(day.year, day.month, day.day),
    ) {
        (Ok(tz), Some(date)) => tz.from_local_date(&date).single().is_some(),
        _ => false,
    }
}

/// `chrono::TimeZone::timestamp_opt` of `chrono::Local`: the wall-clock
/// time that the instant has in the time zone of this process. Which one
/// that is depends on the machine, so nothing is said of it here. There
/// is one for every instant of the supported years that is at least a day
/// from either end of them, as the offset from UTC is less than a day.
#[verifier::external_body]
fn local_wall(seconds: i64) -> (r: Option<WallTime>)
    ensures
        first_second() + 86400 <= seconds <= last_second() - 86400 ==> r is Some,
{
    let at = chrono::Local.timestamp_opt(seconds, 0).single()?;
    let wall = at.naive_utc().checked_add_offset(*at.offset())?;
    let date = CalendarDate { year: wall.year(), month: wall.month(), day: wall.day() };
    Some(WallTime { date, hour: wall.hour(), minute: wall.minute(), second: wall.second() })
}

} // verus!
