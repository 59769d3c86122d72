//! Calendar dates and times of day without a time zone.

use chrono::Datelike;
use vstd::prelude::*;

verus! {

/// The first year of the supported range.
pub const MIN_YEAR: i32 = -262143;

/// The last year of the supported range.
pub const MAX_YEAR: i32 = 262142;

/// Leap years of the proleptic Gregorian calendar.
pub open spec fn is_leap_year(year: int) -> bool {
    year % 4 == 0 && (year % 100 != 0 || year % 400 == 0)
}

/// The number of days of `month` in `year`.
pub open spec fn days_in_month(year: int, month: int) -> int {
    if month == 2 {
        if is_leap_year(year) {
            29
        } else {
            28
        }
    } else if month == 4 || month == 6 || month == 9 || month == 11 {
        30
    } else {
        31
    }
}

/// Days of `year` that lie before the first of `month`.
pub open spec fn days_before_month(year: int, month: int) -> int
    decreases month,
{
    if month <= 1 {
        0
    } else {
        days_before_month(year, month - 1) + days_in_month(year, month - 1)
    }
}

/// Days between 1 January of year 1 and 1 January of `year`.
pub open spec fn days_before_year(year: int) -> int {
    let y = year - 1;
    365 * y + y / 4 - y / 100 + y / 400
}

/// A year, a month and a day of the month, as plain numbers.
pub struct Day {
    pub year: int,
    pub month: int,
    pub day: int,
}

impl Day {
    /// Whether the calendar has this day, within the supported years.
    pub open spec fn is_real(self) -> bool {
        &&& MIN_YEAR <= self.year <= MAX_YEAR
        &&& 1 <= self.month <= 12
        &&& 1 <= self.day <= days_in_month(self.year, self.month)
    }

    /// The day's number, counting from 1 for 1 January of year 1.
    pub open spec fn number(self) -> int {
        days_before_year(self.year) + days_before_month(self.year, self.month) + self.day
    }

    /// Whether the day lies in a year that is neither the first nor the
    /// last of the supported years.
    pub open spec fn is_inside(self) -> bool {
        MIN_YEAR < self.year < MAX_YEAR
    }

    /// Calendar order: by year, then month, then day.
    pub open spec fn is_before(self, other: Day) -> bool {
        self.year < other.year || (self.year == other.year && (self.month < other.month || (
        self.month == other.month && self.day < other.day)))
    }
}

/// An hour and a minute, as plain numbers.
pub struct Clock {
    pub hour: int,
    pub minute: int,
}

impl Clock {
    /// Whether the day has this time.
    pub open spec fn is_real(self) -> bool {
        0 <= self.hour < 24 && 0 <= self.minute < 60
    }
}

/// `found` holds a value exactly if `model` does, and then one that stands
/// for it.
pub open spec fn shows<T: View>(found: Option<T>, model: Option<T::V>) -> bool {
    match found {
        Some(value) => model == Some(value@),
        None => model is None,
    }
}

/// A day and a time of day, as plain numbers.
pub struct Wall {
    pub day: Day,
    pub hour: int,
    pub minute: int,
    pub second: int,
}

impl Wall {
    /// Whether the calendar has the day and the day has the time.
    pub open spec fn is_real(self) -> bool {
        self.day.is_real() && 0 <= self.hour < 24 && 0 <= self.minute < 60 && 0 <= self.second
            < 60
    }

    /// The seconds from 1 January 1970, 00:00 to this time, both read on
    /// the same clock, each day counted as 86 400 seconds.
    pub open spec fn seconds(self) -> int {
        (self.day.number() - epoch_day_number()) * 86400 + self.hour * 3600 + self.minute * 60
            + self.second
    }
}

/// The number of 1 January 1970, the day from which instants are counted.
pub open spec fn epoch_day_number() -> int {
    (Day { year: 1970, month: 1, day: 1 }).number()
}

/// The first second of the supported years, counted from 1 January 1970.
pub open spec fn first_second() -> int {
    (first_day_number() - epoch_day_number()) * 86400
}

/// The last second of the supported years, counted from 1 January 1970.
pub open spec fn last_second() -> int {
    (last_day_number() - epoch_day_number()) * 86400 + 86399
}

/// `day` at `clock`, on the full minute.
pub open spec fn wall(day: Day, clock: Clock) -> Wall {
    Wall { day, hour: clock.hour, minute: clock.minute, second: 0 }
}

/// The number of the first day of the supported range.
pub open spec fn first_day_number() -> int {
    (Day { year: MIN_YEAR as int, month: 1, day: 1 }).number()
}

/// The number of the last day of the supported range.
pub open spec fn last_day_number() -> int {
    (Day { year: MAX_YEAR as int, month: 12, day: 31 }).number()
}

/// The real day that lies `days` days after `day`, if the supported years
/// hold it.
pub open spec fn day_after(day: Day, days: int) -> Option<Day> {
    if first_day_number() <= day.number() + days <= last_day_number() {
        Some(choose|d: Day| d.is_real() && d.number() == day.number() + days)
    } else {
        None
    }
}

/// A year has 365 days, a leap year 366.
pub proof fn lemma_year_length(year: int)
    ensures
        days_before_year(year + 1) == days_before_year(year) + 365 + (if is_leap_year(year) {
            1int
        } else {
            0int
        }),
{
}

/// Later years start later, by at least 365 days for each year between.
pub proof fn lemma_years_apart(early: int, late: int)
    requires
        early <= late,
    ensures
        days_before_year(late) >= days_before_year(early) + 365 * (late - early),
    decreases late - early,
{
    if early < late {
        lemma_years_apart(early, late - 1);
        lemma_year_length(late - 1);
    }
}

/// A real day lies within its year.
pub proof fn lemma_day_of_year(day: Day)
    requires
        day.is_real(),
    ensures
        1 <= days_before_month(day.year, day.month) + day.day <= 365 + (if is_leap_year(
            day.year,
        ) {
            1int
        } else {
            0int
        }),
{
    reveal_with_fuel(days_before_month, 13);
}

/// The day number follows the calendar: of two real days the earlier one has
/// the smaller number.
pub proof fn lemma_number_increases(a: Day, b: Day)
    requires
        a.is_real(),
        b.is_real(),
        a.is_before(b),
    ensures
        a.number() < b.number(),
{
    if a.year < b.year {
        lemma_day_of_year(a);
        lemma_day_of_year(b);
        lemma_year_length(a.year);
        lemma_years_apart(a.year + 1, b.year);
    } else {
        reveal_with_fuel(days_before_month, 13);
    }
}

/// No two real days share a number.
pub proof fn lemma_number_decides(a: Day, b: Day)
    requires
        a.is_real(),
        b.is_real(),
        a.number() == b.number(),
    ensures
        a == b,
{
    if a.is_before(b) {
        lemma_number_increases(a, b);
    } else if b.is_before(a) {
        lemma_number_increases(b, a);
    }
}

/// The number of a real day lies between those of the first and the last
/// day of the supported years.
pub proof fn lemma_number_in_range(day: Day)
    requires
        day.is_real(),
    ensures
        first_day_number() <= day.number() <= last_day_number(),
{
    let first = Day { year: MIN_YEAR as int, month: 1, day: 1 };
    let last = Day { year: MAX_YEAR as int, month: 12, day: 31 };
    if first.is_before(day) {
        lemma_number_increases(first, day);
    }
    if day.is_before(last) {
        lemma_number_increases(day, last);
    }
}

/// A day of a year that is neither the first nor the last of the supported
/// years lies at least 365 days from either end of them.
pub proof fn lemma_inside_days(day: Day)
    requires
        day.is_real(),
        day.is_inside(),
    ensures
        first_day_number() + 365 <= day.number() <= last_day_number() - 365,
{
    reveal_with_fuel(days_before_month, 13);
    lemma_day_of_year(day);
    lemma_year_length(MIN_YEAR as int);
    lemma_years_apart(MIN_YEAR + 1, day.year);
    lemma_year_length(day.year);
    lemma_years_apart(day.year + 1, MAX_YEAR as int);
}

/// The seconds of a wall-clock time in a year that is neither the first
/// nor the last of the supported years lie at least 365 days from either
/// end of them.
pub proof fn lemma_inside_seconds(at: Wall)
    requires
        at.is_real(),
        at.day.is_inside(),
    ensures
        first_second() + 365 * 86400 <= at.seconds() <= last_second() - 365 * 86400,
{
    lemma_inside_days(at.day);
}

/// The day after `day`.
pub open spec fn next_day(day: Day) -> Day {
    if day.day < days_in_month(day.year, day.month) {
        Day { year: day.year, month: day.month, day: day.day + 1 }
    } else if day.month < 12 {
        Day { year: day.year, month: day.month + 1, day: 1 }
    } else {
        Day { year: day.year + 1, month: 1, day: 1 }
    }
}

/// The day after a real day is real, unless the supported years end, and
/// has the next number.
pub proof fn lemma_next_day(day: Day)
    requires
        day.is_real(),
    ensures
        next_day(day).number() == day.number() + 1,
        day.number() < last_day_number() ==> next_day(day).is_real(),
{
    reveal_with_fuel(days_before_month, 13);
    lemma_year_length(day.year);
    if day.year == MAX_YEAR && day.month == 12 && day.day == 31 {
    } else if day.year == MAX_YEAR {
        let last = Day { year: MAX_YEAR as int, month: 12, day: 31 };
        assert(day.is_before(last));
    }
}

/// Every number from the first day of the supported years to the last is
/// the number of a real day.
pub proof fn lemma_day_exists(number: int)
    requires
        first_day_number() <= number <= last_day_number(),
    ensures
        exists|day: Day| day.is_real() && #[trigger] day.number() == number,
    decreases number - first_day_number(),
{
    if number == first_day_number() {
        let first = Day { year: MIN_YEAR as int, month: 1, day: 1 };
        assert(first.is_real() && first.number() == number);
    } else {
        lemma_day_exists(number - 1);
        let before = choose|day: Day| day.is_real() && #[trigger] day.number() == number - 1;
        lemma_next_day(before);
        let found = next_day(before);
        assert(found.is_real() && found.number() == number);
    }
}

/// Within the supported years, the day so many days after a real day is a
/// real day, and it is that many days later.
pub proof fn lemma_day_after(day: Day, days: int)
    ensures
        day_after(day, days) is Some <==> first_day_number() <= day.number() + days
            <= last_day_number(),
        day_after(day, days) matches Some(later) ==> later.is_real() && later.number()
            == day.number() + days,
{
    if first_day_number() <= day.number() + days <= last_day_number() {
        lemma_day_exists(day.number() + days);
    }
}

/// A day of the calendar. Every value is a day that exists.
#[derive(Clone, Copy, Debug, PartialEq, Eq, Structural)]
pub struct CalendarDate {
    pub(crate) year: i32,
    pub(crate) month: u32,
    pub(crate) day: u32,
}

impl View for CalendarDate {
    type V = Day;

    closed spec fn view(&self) -> Day {
        Day { year: self.year as int, month: self.month as int, day: self.day as int }
    }
}

/// A time of day, to the minute. Every value is a time that exists.
#[derive(Clone, Copy, Debug, PartialEq, Eq, Structural)]
pub struct ClockTime {
    pub(crate) hour: u32,
    pub(crate) minute: u32,
}

impl View for ClockTime {
    type V = Clock;

    closed spec fn view(&self) -> Clock {
        Clock { hour: self.hour as int, minute: self.minute as int }
    }
}

/// A day and a time of day, to the second, without a time zone.
#[derive(Clone, Copy, Debug, PartialEq, Eq, Structural)]
pub struct WallTime {
    pub(crate) date: CalendarDate,
    pub(crate) hour: u32,
    pub(crate) minute: u32,
    pub(crate) second: u32,
}

impl View for WallTime {
    type V = Wall;

    closed spec fn view(&self) -> Wall {
        Wall {
            day: self.date@,
            hour: self.hour as int,
            minute: self.minute as int,
            second: self.second as int,
        }
    }
}

impl CalendarDate {
    #[verifier::type_invariant]
    pub(crate) open spec fn inv(self) -> bool {
        self@.is_real()
    }

    /// The date `day.month.year`, if the calendar has it.
    pub fn from_ymd(year: i32, month: u32, day: u32) -> (r: Option<CalendarDate>)
        ensures
            r is Some <==> (Day { year: year as int, month: month as int, day: day as int }).is_real(),
            r matches Some(d) ==> d@ == (Day {
                year: year as int,
                month: month as int,
                day: day as int,
            }),
    {
        if has_date(year, month, day) {
            Some(CalendarDate { year, month, day })
        } else {
            None
        }
    }

    /// The year of the date.
    pub fn year(&self) -> (y: i32)
        ensures
            y == self@.year,
            self@.is_real(),
    {
        proof {
            use_type_invariant(self);
        }
        self.year
    }

    /// The month of the date, from 1 to 12.
    pub fn month(&self) -> (m: u32)
        ensures
            m == self@.month,
            self@.is_real(),
    {
        proof {
            use_type_invariant(self);
        }
        self.month
    }

    /// The day of the month, from 1.
    pub fn day(&self) -> (d: u32)
        ensures
            d == self@.day,
            self@.is_real(),
    {
        proof {
            use_type_invariant(self);
        }
        self.day
    }

    /// Tells whether `self` comes before `other` in the calendar.
    pub fn before(&self, other: &CalendarDate) -> (b: bool)
        ensures
            b == self@.is_before(other@),
    {
        self.year < other.year || (self.year == other.year && (self.month < other.month || (
        self.month == other.month && self.day < other.day)))
    }

    /// The day that lies `days` days after this one (before it, if `days` is
    /// negative), unless that leaves the supported years.
    pub fn plus_days(&self, days: i32) -> (r: Option<CalendarDate>)
        ensures
            r is Some <==> day_after(self@, days as int) is Some,
            r matches Some(d) ==> day_after(self@, days as int) == Some(d@),
            r matches Some(d) ==> d@.is_real() && d@.number() == self@.number() + days,
    {
        let r = shifted(*self, days);
        proof {
            if let Some(d) = r {
                use_type_invariant(d);
                lemma_number_decides(d@, day_after(self@, days as int)->0);
            }
        }
        r
    }

    /// This day at `time`, on the full minute.
    pub fn at(&self, time: ClockTime) -> (w: WallTime)
        ensures
            w@ == wall(self@, time@),
    {
        proof {
            use_type_invariant(self);
            use_type_invariant(time);
        }
        WallTime { date: *self, hour: time.hour, minute: time.minute, second: 0 }
    }

    /// Two dates are the same exactly if they stand for the same day.
    pub proof fn lemma_same_view(self, other: CalendarDate)
        ensures
            self@ == other@ <==> self == other,
    {
    }
}

impl ClockTime {
    #[verifier::type_invariant]
    pub(crate) open spec fn inv(self) -> bool {
        self@.is_real()
    }

    /// The time `hour:minute`, if the day has it.
    pub fn from_hm(hour: u32, minute: u32) -> (r: Option<ClockTime>)
        ensures
            r is Some <==> hour < 24 && minute < 60,
            r matches Some(t) ==> t@ == (Clock { hour: hour as int, minute: minute as int }),
    {
        if hour < 24 && minute < 60 {
            Some(ClockTime { hour, minute })
        } else {
            None
        }
    }

    /// The hour, from 0 to 23.
    pub fn hour(&self) -> (h: u32)
        ensures
            h == self@.hour,
            self@.is_real(),
    {
        proof {
            use_type_invariant(self);
        }
        self.hour
    }

    /// The minute, from 0 to 59.
    pub fn minute(&self) -> (m: u32)
        ensures
            m == self@.minute,
            self@.is_real(),
    {
        proof {
            use_type_invariant(self);
        }
        self.minute
    }

    /// Two times are the same exactly if they stand for the same hour and
    /// minute.
    pub proof fn lemma_same_view(self, other: ClockTime)
        ensures
            self@ == other@ <==> self == other,
    {
    }
}

impl WallTime {
    #[verifier::type_invariant]
    pub(crate) open spec fn inv(self) -> bool {
        self@.is_real()
    }

    /// `date` at `hour:minute:second`, if the day has that time.
    pub fn from_parts(date: CalendarDate, hour: u32, minute: u32, second: u32) -> (r: Option<
        WallTime,
    >)
        ensures
            r is Some <==> hour < 24 && minute < 60 && second < 60,
            r matches Some(w) ==> w@ == (Wall {
                day: date@,
                hour: hour as int,
                minute: minute as int,
                second: second as int,
            }),
    {
        proof {
            use_type_invariant(date);
        }
        if hour < 24 && minute < 60 && second < 60 {
            Some(WallTime { date, hour, minute, second })
        } else {
            None
        }
    }

    /// The day.
    pub fn date(&self) -> (d: CalendarDate)
        ensures
            d@ == self@.day,
            self@.is_real(),
    {
        proof {
            use_type_invariant(self);
        }
        self.date
    }

    /// The hour, from 0 to 23.
    pub fn hour(&self) -> (h: u32)
        ensures
            h == self@.hour,
            self@.is_real(),
    {
        proof {
            use_type_invariant(self);
        }
        self.hour
    }

    /// The minute, from 0 to 59.
    pub fn minute(&self) -> (m: u32)
        ensures
            m == self@.minute,
            self@.is_real(),
    {
        proof {
            use_type_invariant(self);
        }
        self.minute
    }

    /// The second, from 0 to 59.
    pub fn second(&self) -> (s: u32)
        ensures
            s == self@.second,
            self@.is_real(),
    {
        proof {
            use_type_invariant(self);
        }
        self.second
    }

    /// Two wall-clock times are the same exactly if they stand for the same
    /// day and time.
    pub proof fn lemma_same_view(self, other: WallTime)
        ensures
            self@ == other@ <==> self == other,
    {
    }
}

/// `chrono::NaiveDate::from_ymd_opt`: there is a date exactly for the days
/// that exist in the proleptic Gregorian calendar and whose year lies in
/// the range that `NaiveDate` can hold.
#[verifier::external_body]
fn has_date(year: i32, month: u32, day: u32) -> (b: bool)
    ensures
        b == (Day { year: year as int, month: month as int, day: day as int }).is_real(),
{
    chrono::NaiveDate::from_ymd_opt(year, month, day).is_some()
}

/// `chrono::NaiveDate::checked_add_signed` with a whole number of days: the
/// result is the date that many days later, and there is none only where
/// that day lies outside the years that `NaiveDate` can hold.
#[verifier::external_body]
fn shifted(date: CalendarDate, days: i32) -> (r: Option<CalendarDate>)
    ensures
        r is Some <==> first_day_number() <= date@.number() + days <= last_day_number(),
        r matches Some(d) ==> d@.number() == date@.number() + days,
{
    let from = chrono::NaiveDate::from_ymd_opt(date.year, date.month, date.day)?;
    let to = from.checked_add_signed(chrono::TimeDelta::try_days(days as i64)?)?;
    Some(CalendarDate { year: to.year(), month: to.month(), day: to.day() })
}

} // verus!
