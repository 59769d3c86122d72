//! What the diary notations share: the kinds of date an entry can have,
//! the readers of a date, a time of day and a span of times, and the
//! making of calendar records from events.

pub mod alpha;
pub mod calendar;

use crate::civil::CalendarDate;
use crate::civil::Clock;
use crate::civil::ClockTime;
use crate::civil::Day;
use crate::civil::Wall;
use crate::civil::WallTime;
use crate::text::chars_of;
use crate::text::decimal;
use crate::text::is_digit;
use crate::text::lemma_padded;
use crate::text::lemma_split_pair;
use crate::text::lemma_two_digits;
use crate::text::padded;
use crate::text::parse_u32;
use crate::text::split;
use crate::text::split_on;
use crate::text::string_of;
use crate::text::trim_blanks;
use crate::text::trimmed;
use crate::text::u32_of;
use crate::text::views;
use crate::zone::Moment;
use crate::zone::ZONE;
use crate::zone::day_in_zone;
use crate::zone::zone_has_day;
use crate::zone::zone_instant;
use chrono::Timelike;
use vstd::prelude::*;
use vstd::string::*;

verus! {

/// The pattern of a time written with a colon, as in `23:59`.
pub const COLON_TIME: &'static str = "%k:%M";

/// The pattern of a time written without a separator, as in `2359`.
pub const COMPACT_TIME: &'static str = "%k%M";

/// The pattern in which a moment is written in an exported record.
pub const DATETIME_FORMAT: &'static str = "%Y%m%dT%H%M%SZ";

/// The pattern in which a day is written in an exported record.
pub const DATE_FORMAT: &'static str = "%Y%m%d";

/// Something that takes place at some date and can be described.
pub trait Event {
    /// When it takes place.
    spec fn when(&self) -> DateVariant;

    /// How it is described.
    spec fn summary(&self) -> Seq<char>;

    fn date(&self) -> (date: &DateVariant)
        ensures
            *date == self.when(),
    ;

    fn description(&self) -> (text: &str)
        ensures
            text@ == self.summary(),
    ;
}

/// Why an event cannot be exported.
#[derive(Clone, Copy, Debug, PartialEq, Eq, Structural)]
pub enum ExportError {
    /// Only a month or a year is known of the event.
    UnsupportedDateVariant,
}

/// When an entry takes place, from the most exact kind to the least.
#[derive(Clone, Copy, Debug, PartialEq, Eq, Structural)]
pub enum DateVariant {
    TimeSpan(Moment, Moment),
    DateTime(Moment),
    Date(CalendarDate),
    Month { year: u32, month: u32 },
    Year(u32),
}

/// The outcome of trying to read a date.
#[derive(Debug, PartialEq, Eq)]
pub enum Reading<T> {
    /// The text is not written as a date.
    NoMatch,
    /// The text is written as a date, but the calendar has no such day.
    Impossible,
    Found(T),
}

/// When an entry takes place as it is written, before the time zone is
/// taken into account.
#[derive(Clone, Copy, Debug, PartialEq, Eq, Structural)]
pub enum NaiveVariant {
    TimeSpan(WallTime, WallTime),
    DateTime(WallTime),
    Date(CalendarDate),
}

/// What a `NaiveVariant` stands for.
pub enum Written {
    TimeSpan(Wall, Wall),
    DateTime(Wall),
    Date(Day),
}

impl View for NaiveVariant {
    type V = Written;

    open spec fn view(&self) -> Written {
        match *self {
            NaiveVariant::TimeSpan(start, end) => Written::TimeSpan(start@, end@),
            NaiveVariant::DateTime(at) => Written::DateTime(at@),
            NaiveVariant::Date(day) => Written::Date(day@),
        }
    }
}

/// Whether `date` is `written` placed in the time zone of the diary: the
/// same kind of date, each wall-clock time turned into the instant that it
/// denotes there, a day kept as it is.
pub open spec fn is_placed(written: Written, date: DateVariant) -> bool {
    match written {
        Written::TimeSpan(start, end) => {
            &&& date matches DateVariant::TimeSpan(first, last)
            &&& zone_instant(ZONE@, start) == Some(first@.seconds)
            &&& zone_instant(ZONE@, end) == Some(last@.seconds)
            &&& first@.local.is_real()
            &&& last@.local.is_real()
        },
        Written::DateTime(at) => {
            &&& date matches DateVariant::DateTime(moment)
            &&& zone_instant(ZONE@, at) == Some(moment@.seconds)
            &&& moment@.local.is_real()
        },
        Written::Date(day) => {
            &&& date matches DateVariant::Date(same)
            &&& same@ == day
            &&& zone_has_day(ZONE@, day)
        },
    }
}

/// Whether the time zone of the diary has what is written: each
/// wall-clock time exactly once, or the day.
pub open spec fn has_place(written: Written) -> bool {
    match written {
        Written::TimeSpan(start, end) => zone_instant(ZONE@, start) is Some && zone_instant(
            ZONE@,
            end,
        ) is Some,
        Written::DateTime(at) => zone_instant(ZONE@, at) is Some,
        Written::Date(day) => zone_has_day(ZONE@, day),
    }
}

/// Whether every wall-clock time that is written lies in a year that is
/// neither the first nor the last of the supported years. A whole day may
/// lie in any year.
pub open spec fn is_inside(written: Written) -> bool {
    match written {
        Written::TimeSpan(start, end) => start.day.is_inside() && end.day.is_inside(),
        Written::DateTime(at) => at.day.is_inside(),
        Written::Date(_) => true,
    }
}

impl NaiveVariant {
    /// Puts together the date of an entry from what the time zone made of
    /// its parts: `start` and `end` for the wall-clock times, `day_known`
    /// for a day. A part that is missing leaves no date.
    pub fn zoned(self, start: Option<Moment>, end: Option<Moment>, day_known: bool) -> (r: Option<
        DateVariant,
    >)
        ensures
            r == (match self {
                NaiveVariant::TimeSpan(_, _) => match (start, end) {
                    (Some(first), Some(last)) => Some(DateVariant::TimeSpan(first, last)),
                    _ => None,
                },
                NaiveVariant::DateTime(_) => match start {
                    Some(moment) => Some(DateVariant::DateTime(moment)),
                    None => None,
                },
                NaiveVariant::Date(day) => if day_known {
                    Some(DateVariant::Date(day))
                } else {
                    None
                },
            }),
    {
        match self {
            NaiveVariant::TimeSpan(_, _) => match (start, end) {
                (Some(first), Some(last)) => Some(DateVariant::TimeSpan(first, last)),
                _ => None,
            },
            NaiveVariant::DateTime(_) => match start {
                Some(moment) => Some(DateVariant::DateTime(moment)),
                None => None,
            },
            NaiveVariant::Date(day) => if day_known {
                Some(DateVariant::Date(day))
            } else {
                None
            },
        }
    }

    /// Places what is written in the time zone of the diary.
    ///
    /// There is a date only if the zone has what is written, and there is
    /// one whenever it has, unless a wall-clock time lies in the first or
    /// the last of the supported years and the process cannot show its
    /// instant as a local time.
    pub fn in_zone(self) -> (r: Option<DateVariant>)
        ensures
            r matches Some(date) ==> is_placed(self@, date),
            !has_place(self@) ==> r is None,
            has_place(self@) && is_inside(self@) ==> r is Some,
    {
        match self {
            NaiveVariant::TimeSpan(start, end) => {
                let first = Moment::in_zone(ZONE, start);
                let last = Moment::in_zone(ZONE, end);
                self.zoned(first, last, false)
            },
            NaiveVariant::DateTime(at) => self.zoned(Moment::in_zone(ZONE, at), None, false),
            NaiveVariant::Date(day) => self.zoned(None, None, day_in_zone(ZONE, day)),
        }
    }
}

/// The day and the month that `token` writes as `day.month`: its first two
/// pieces between dots, both unsigned numbers. What follows a second dot is
/// not looked at.
pub open spec fn day_and_month(token: Seq<char>) -> Option<(u32, u32)> {
    let pieces = split(token, '.');
    if pieces.len() < 2 {
        None
    } else {
        match (u32_of(pieces[0]), u32_of(pieces[1])) {
            (Some(day), Some(month)) => Some((day, month)),
            _ => None,
        }
    }
}

/// The date that `token` writes, taken in `year`.
pub open spec fn date_of(token: Seq<char>, year: int) -> Reading<Day> {
    match day_and_month(token) {
        None => Reading::NoMatch,
        Some((day, month)) => {
            let date = Day { year, month: month as int, day: day as int };
            if date.is_real() {
                Reading::Found(date)
            } else {
                Reading::Impossible
            }
        },
    }
}

/// Whether `text` is written as an hour of one or two digits, a colon and
/// a minute of two digits.
pub open spec fn is_colon_time(text: Seq<char>) -> bool {
    ||| {
        &&& text.len() == 4
        &&& is_digit(text[0])
        &&& text[1] == ':'
        &&& is_digit(text[2])
        &&& is_digit(text[3])
    }
    ||| {
        &&& text.len() == 5
        &&& is_digit(text[0])
        &&& is_digit(text[1])
        &&& text[2] == ':'
        &&& is_digit(text[3])
        &&& is_digit(text[4])
    }
}

/// Whether `text` is written as four digits: two for the hour and two for
/// the minute.
pub open spec fn is_compact_time(text: Seq<char>) -> bool {
    &&& text.len() == 4
    &&& is_digit(text[0])
    &&& is_digit(text[1])
    &&& is_digit(text[2])
    &&& is_digit(text[3])
}

/// The time of day with the given hour and minute, if the day has it.
pub open spec fn clock_of(hour: nat, minute: nat) -> Option<Clock> {
    if hour < 24 && minute < 60 {
        Some(Clock { hour: hour as int, minute: minute as int })
    } else {
        None
    }
}

/// The time of day that `text` writes with a colon, as in `23:59` or
/// `9:05`. White space around it does no harm.
pub open spec fn colon_time_of(text: Seq<char>) -> Option<Clock> {
    let inner = trimmed(text);
    if is_colon_time(inner) {
        clock_of(decimal(inner.take(inner.len() - 3)), decimal(inner.skip(inner.len() - 2)))
    } else {
        None
    }
}

/// The time of day that `text` writes without a separator, as in `2359`:
/// exactly four digits.
pub open spec fn compact_time_of(text: Seq<char>) -> Option<Clock> {
    if is_compact_time(text) {
        clock_of(decimal(text.take(2)), decimal(text.skip(2)))
    } else {
        None
    }
}

/// The time of day that `token` writes: with a colon, or else without.
pub open spec fn time_of(token: Seq<char>) -> Option<Clock> {
    match colon_time_of(token) {
        Some(time) => Some(time),
        None => compact_time_of(token),
    }
}

/// The span of times that `token` writes: two times of day with one dash
/// between them.
pub open spec fn timespan_of(token: Seq<char>) -> Option<(Clock, Clock)> {
    let pieces = split(token, '-');
    if pieces.len() != 2 {
        None
    } else {
        match (time_of(pieces[0]), time_of(pieces[1])) {
            (Some(start), Some(end)) => Some((start, end)),
            _ => None,
        }
    }
}

/// What a reading of a date stands for.
pub open spec fn date_model(found: Reading<CalendarDate>) -> Reading<Day> {
    match found {
        Reading::NoMatch => Reading::NoMatch,
        Reading::Impossible => Reading::Impossible,
        Reading::Found(date) => Reading::Found(date@),
    }
}

/// What a reading of a time of day stands for.
pub open spec fn time_model(found: Option<ClockTime>) -> Option<Clock> {
    match found {
        Some(time) => Some(time@),
        None => None,
    }
}

/// What a reading of a span of times stands for.
pub open spec fn range_model(found: Option<(ClockTime, ClockTime)>) -> Option<(Clock, Clock)> {
    match found {
        Some((start, end)) => Some((start@, end@)),
        None => None,
    }
}

/// Reads the day and the month of a token written as `day.month`.
pub fn read_day_and_month(token: &Vec<char>) -> (r: Option<(u32, u32)>)
    ensures
        r == day_and_month(token@),
{
    let pieces = split_on(token, '.');
    assert(views(pieces@).len() == pieces@.len());
    if pieces.len() < 2 {
        return None;
    }
    assert(views(pieces@)[0] == pieces@[0]@);
    assert(views(pieces@)[1] == pieces@[1]@);
    let day = match parse_u32(&pieces[0]) {
        Some(day) => day,
        None => return None,
    };
    let month = match parse_u32(&pieces[1]) {
        Some(month) => month,
        None => return None,
    };
    Some((day, month))
}

/// Reads a token written as `day.month` as a date of `year`.
pub fn read_date(token: &Vec<char>, year: i32) -> (r: Reading<CalendarDate>)
    ensures
        date_model(r) == date_of(token@, year as int),
{
    match read_day_and_month(token) {
        None => Reading::NoMatch,
        Some((day, month)) => match CalendarDate::from_ymd(year, month, day) {
            Some(date) => Reading::Found(date),
            None => Reading::Impossible,
        },
    }
}

/// Reads `s`, written as `day.month`, as a date of `year`.
///
/// There is a date exactly if `s` is written so and the calendar has the
/// day.
pub fn parse_date(s: &str, year: i32) -> (r: Option<CalendarDate>)
    ensures
        r is Some <==> date_of(s@, year as int) is Found,
        r matches Some(date) ==> date_of(s@, year as int) == Reading::Found(date@),
{
    let token = chars_of(s);
    match read_date(&token, year) {
        Reading::Found(date) => Some(date),
        _ => None,
    }
}

/// Tells whether `text` is written as a time with a colon.
fn colon_shape(text: &Vec<char>) -> (b: bool)
    ensures
        b == is_colon_time(text@),
{
    if text.len() == 4 {
        digit(text[0]) && text[1] == ':' && digit(text[2]) && digit(text[3])
    } else if text.len() == 5 {
        digit(text[0]) && digit(text[1]) && text[2] == ':' && digit(text[3]) && digit(text[4])
    } else {
        false
    }
}

/// Tells whether `text` is written as a time without a separator.
fn compact_shape(text: &Vec<char>) -> (b: bool)
    ensures
        b == is_compact_time(text@),
{
    text.len() == 4 && digit(text[0]) && digit(text[1]) && digit(text[2]) && digit(text[3])
}

/// Tells whether `c` is a decimal digit.
fn digit(c: char) -> (b: bool)
    ensures
        b == is_digit(c),
{
    '0' <= c && c <= '9'
}

/// Reads a token as a time of day.
pub fn read_time(token: &Vec<char>) -> (r: Option<ClockTime>)
    ensures
        time_model(r) == time_of(token@),
{
    let inner = trim_blanks(token);
    if colon_shape(&inner) {
        let found = read_clock(string_of(&inner).as_str(), COLON_TIME);
        if found.is_some() {
            return found;
        }
    }
    if compact_shape(token) {
        read_clock(string_of(token).as_str(), COMPACT_TIME)
    } else {
        None
    }
}

/// Reads `s` as a time of day, written as `23:59` or as `2359`.
pub fn parse_time(s: &str) -> (r: Option<ClockTime>)
    ensures
        time_model(r) == time_of(s@),
{
    let token = chars_of(s);
    read_time(&token)
}

/// Reads a token as a span of times of day.
pub fn read_timespan(token: &Vec<char>) -> (r: Option<(ClockTime, ClockTime)>)
    ensures
        range_model(r) == timespan_of(token@),
{
    let pieces = split_on(token, '-');
    assert(views(pieces@).len() == pieces@.len());
    if pieces.len() != 2 {
        return None;
    }
    assert(views(pieces@)[0] == pieces@[0]@);
    assert(views(pieces@)[1] == pieces@[1]@);
    let end = match read_time(&pieces[1]) {
        Some(time) => time,
        None => return None,
    };
    let start = match read_time(&pieces[0]) {
        Some(time) => time,
        None => return None,
    };
    Some((start, end))
}

/// Reads `s` as a span of times of day, written as `12:40-13:20`.
pub fn parse_timespan(s: &str) -> (r: Option<(ClockTime, ClockTime)>)
    ensures
        range_model(r) == timespan_of(s@),
{
    let token = chars_of(s);
    read_timespan(&token)
}

/// A year as text: four digits from 0 to 9999, and beyond that a sign and
/// at least four digits.
pub open spec fn year_text(year: int) -> Seq<char> {
    if 0 <= year <= 9999 {
        padded(year as nat, 4)
    } else if year > 9999 {
        seq!['+'] + padded(year as nat, 4)
    } else {
        seq!['-'] + padded((-year) as nat, 4)
    }
}

/// A day as text: year, month and day without separators.
pub open spec fn day_text(day: Day) -> Seq<char> {
    year_text(day.year) + padded(day.month as nat, 2) + padded(day.day as nat, 2)
}

/// A wall-clock time as text: the day, `T`, then hour, minute and second
/// in two digits each, and `Z`.
pub open spec fn stamp_text(at: Wall) -> Seq<char> {
    day_text(at.day) + seq!['T'] + padded(at.hour as nat, 2) + padded(at.minute as nat, 2)
        + padded(at.second as nat, 2) + seq!['Z']
}

/// What a part of a calendar file holds: its name, its properties, each a
/// name and a value, and the parts inside it, all in the order in which
/// they are written.
pub struct Part {
    pub name: Seq<char>,
    pub properties: Seq<(Seq<char>, Seq<char>)>,
    pub parts: Seq<Part>,
}

/// What `component` holds, as `ics` keeps and writes it.
pub uninterp spec fn component_view(component: ics::components::Component<'static>) -> Part;

/// `ics::components::Component`: a part of a calendar file, such as an
/// event.
#[verifier::external_type_specification]
#[verifier::external_body]
pub struct ExComponent<'a>(ics::components::Component<'a>);

/// The properties of `record`.
pub open spec fn event_properties(record: ics::components::Component<'static>) -> Seq<
    (Seq<char>, Seq<char>),
> {
    component_view(record).properties
}

/// The properties that tell when an event takes place and what it is,
/// which follow the identifier and the time stamp of its record: the start,
/// the end if the event has one, the summary and a remark on where the
/// record comes from.
pub open spec fn dated_properties(date: DateVariant, summary: Seq<char>) -> Result<
    Seq<(Seq<char>, Seq<char>)>,
    ExportError,
> {
    let closing = seq![("SUMMARY"@, summary), ("COMMENT"@, "created with memoparsa"@)];
    match date {
        DateVariant::TimeSpan(start, end) => Ok(
            seq![("DTSTART"@, stamp_text(start@.local)), ("DTEND"@, stamp_text(end@.local))]
                + closing,
        ),
        DateVariant::DateTime(at) => Ok(seq![("DTSTART"@, stamp_text(at@.local))] + closing),
        DateVariant::Date(day) => Ok(seq![("DTSTART"@, day_text(day@))] + closing),
        DateVariant::Month { .. } => Err(ExportError::UnsupportedDateVariant),
        DateVariant::Year(_) => Err(ExportError::UnsupportedDateVariant),
    }
}

/// The record of an event with the identifier `uid`, made at `made`: a
/// part named `VEVENT` that holds the identifier, the time stamp and the
/// properties of the event, and no parts.
pub open spec fn record_of(
    date: DateVariant,
    summary: Seq<char>,
    uid: Seq<char>,
    made: Seq<char>,
) -> Result<Part, ExportError> {
    match dated_properties(date, summary) {
        Ok(rest) => Ok(
            Part {
                name: "VEVENT"@,
                properties: seq![("UID"@, uid), ("DTSTAMP"@, made)] + rest,
                parts: Seq::empty(),
            },
        ),
        Err(error) => Err(error),
    }
}

/// What `found` holds.
pub open spec fn record_model(
    found: Result<ics::components::Component<'static>, ExportError>,
) -> Result<Part, ExportError> {
    match found {
        Ok(event) => Ok(component_view(event)),
        Err(error) => Err(error),
    }
}

/// Makes the record of an event that takes place at `date` and is
/// described by `summary`, with the identifier `uid` and the time stamp
/// `made`. An event of which only the month or the year is known has no
/// record.
pub fn ics_event_of(date: &DateVariant, summary: &str, uid: String, made: String) -> (r: Result<
    ics::components::Component<'static>,
    ExportError,
>)
    ensures
        record_model(r) == record_of(*date, summary@, uid@, made@),
{
    let mut event = new_event(uid, made);
    match *date {
        DateVariant::TimeSpan(start, end) => {
            let begins = format_wall(start.local(), DATETIME_FORMAT);
            let ends = format_wall(end.local(), DATETIME_FORMAT);
            push_property(&mut event, "DTSTART", begins);
            push_property(&mut event, "DTEND", ends);
        },
        DateVariant::DateTime(at) => {
            let begins = format_wall(at.local(), DATETIME_FORMAT);
            push_property(&mut event, "DTSTART", begins);
        },
        DateVariant::Date(day) => {
            let begins = format_day(day, DATE_FORMAT);
            push_property(&mut event, "DTSTART", begins);
        },
        DateVariant::Month { .. } => {
            return Err(ExportError::UnsupportedDateVariant);
        },
        DateVariant::Year(_) => {
            return Err(ExportError::UnsupportedDateVariant);
        },
    }
    push_property(&mut event, "SUMMARY", String::from_str(summary));
    push_property(&mut event, "COMMENT", String::from_str("created with memoparsa"));
    assert(event_properties(event) =~= record_of(*date, summary@, uid@, made@)->Ok_0.properties);
    Ok(event)
}

/// A digit of a number in base sixteen, written in lower case.
pub open spec fn is_hex_digit(c: char) -> bool {
    is_digit(c) || 'a' <= c <= 'f'
}

/// Whether `text` is written as a random identifier: 32 digits in base
/// sixteen in groups of 8, 4, 4, 4 and 12 with hyphens between them, the
/// first digit of the third group being the version, 4.
pub open spec fn is_uid_text(text: Seq<char>) -> bool {
    &&& text.len() == 36
    &&& forall|i: int|
        0 <= i < 36 ==> if i == 8 || i == 13 || i == 18 || i == 23 {
            text[i] == '-'
        } else {
            is_hex_digit(#[trigger] text[i])
        }
    &&& text[14] == '4'
}

/// Whether `text` is some wall-clock time written as a time stamp.
pub open spec fn is_stamp(text: Seq<char>) -> bool {
    exists|at: Wall| at.is_real() && text == #[trigger] stamp_text(at)
}

/// Whether `part` is the record of an event that takes place at `date` and
/// is described by `summary`: a part named `VEVENT` without parts inside,
/// whose properties are `UID` with a random identifier, `DTSTAMP` with a
/// time stamp, and then those of the event.
pub open spec fn is_record_part(part: Part, date: DateVariant, summary: Seq<char>) -> bool {
    &&& dated_properties(date, summary) matches Ok(rest)
    &&& part.name == "VEVENT"@
    &&& part.parts.len() == 0
    &&& part.properties.len() == rest.len() + 2
    &&& part.properties[0].0 == "UID"@
    &&& is_uid_text(part.properties[0].1)
    &&& part.properties[1].0 == "DTSTAMP"@
    &&& is_stamp(part.properties[1].1)
    &&& part.properties.skip(2) == rest
}

/// Whether `found` is what the export of an event that takes place at
/// `date` and is described by `summary` comes to: its record, or the
/// reason why it has none.
pub open spec fn is_record_of(
    found: Result<ics::components::Component<'static>, ExportError>,
    date: DateVariant,
    summary: Seq<char>,
) -> bool {
    match found {
        Ok(event) => is_record_part(component_view(event), date, summary),
        Err(error) => dated_properties(date, summary) == Err::<
            Seq<(Seq<char>, Seq<char>)>,
            ExportError,
        >(error),
    }
}

/// Events that can be turned into records of a calendar file.
pub trait CreateIcsEvent {
    fn create_ics_event(&self) -> Result<ics::components::Component<'static>, ExportError>;
}

impl<T: Event> CreateIcsEvent for T {
    /// Makes the record of this event, with a new random identifier and
    /// the present time, read in UTC, as its time stamp.
    fn create_ics_event(&self) -> (r: Result<ics::components::Component<'static>, ExportError>)
        ensures
            is_record_of(r, self.when(), self.summary()),
    {
        let uid = new_uid();
        let made = now_text(DATETIME_FORMAT);
        let r = ics_event_of(self.date(), self.description(), uid, made);
        proof {
            if let Ok(rest) = dated_properties(self.when(), self.summary()) {
                let head = seq![("UID"@, uid@), ("DTSTAMP"@, made@)];
                assert((head + rest).skip(2) =~= rest);
            }
        }
        r
    }
}

/// `chrono::NaiveTime::parse_from_str` on a text that is written as the
/// pattern asks: under `%k:%M` an hour of one or two digits, a colon and a
/// minute of two digits, under `%k%M` two digits each. The digits are read
/// as numbers, and there is a time exactly if the hour is below 24 and the
/// minute below 60.
#[verifier::external_body]
fn read_clock(text: &str, pattern: &str) -> (r: Option<ClockTime>)
    requires
        (pattern@ == COLON_TIME@ && is_colon_time(text@)) || (pattern@ == COMPACT_TIME@
            && is_compact_time(text@)),
    ensures
        pattern@ == COLON_TIME@ && is_colon_time(text@) ==> time_model(r) == clock_of(
            decimal(text@.take(text@.len() - 3)),
            decimal(text@.skip(text@.len() - 2)),
        ),
        pattern@ == COMPACT_TIME@ && is_compact_time(text@) ==> time_model(r) == clock_of(
            decimal(text@.take(2)),
            decimal(text@.skip(2)),
        ),
{
    match chrono::NaiveTime::parse_from_str(text, pattern) {
        Ok(time) => Some(ClockTime { hour: time.hour(), minute: time.minute() }),
        Err(_) => None,
    }
}

/// `ics::Event::new`, turned into the component that a calendar holds for
/// it: a part named `VEVENT` with the two properties `UID` and `DTSTAMP`
/// of the given values, and nothing else.
#[verifier::external_body]
fn new_event(uid: String, made: String) -> (event: ics::components::Component<'static>)
    ensures
        component_view(event) == (Part {
            name: "VEVENT"@,
            properties: seq![("UID"@, uid@), ("DTSTAMP"@, made@)],
            parts: Seq::empty(),
        }),
{
    ics::Event::new(uid, made).into()
}

/// `ics::components::Component::add_property` of an
/// `ics::components::Property`: the property is added behind those that
/// the component holds, and nothing else changes.
#[verifier::external_body]
fn push_property(
    event: &mut ics::components::Component<'static>,
    name: &'static str,
    value: String,
)
    ensures
        component_view(*final(event)) == (Part {
            name: component_view(*old(event)).name,
            properties: component_view(*old(event)).properties.push((name@, value@)),
            parts: component_view(*old(event)).parts,
        }),
{
    event.add_property(ics::components::Property::new(name, value))
}

/// `uuid::Uuid::new_v4`, written out: a random identifier, of which only
/// the way it is written is known beforehand: in lower case with hyphens,
/// and with its version, 4, in its place.
#[verifier::external_body]
fn new_uid() -> (uid: String)
    ensures
        is_uid_text(uid@),
{
    uuid::Uuid::new_v4().to_string()
}

/// `chrono::Utc::now`, written out under `pattern`: the present time, of
/// which only the way it is written is known beforehand, which is that of
/// `format_wall`.
#[verifier::external_body]
fn now_text(pattern: &str) -> (text: String)
    requires
        pattern@ == DATETIME_FORMAT@,
    ensures
        is_stamp(text@),
{
    chrono::Utc::now().format(pattern).to_string()
}

/// `chrono::NaiveDateTime::format` under the pattern `%Y%m%dT%H%M%SZ`:
/// year, month, day, `T`, hour, minute, second, `Z`; two digits each with a
/// zero in front where needed, and the year in four, or with a sign once
/// it is outside 0 to 9999.
#[verifier::external_body]
fn format_wall(at: WallTime, pattern: &str) -> (text: String)
    requires
        pattern@ == DATETIME_FORMAT@,
    ensures
        text@ == stamp_text(at@),
{
    match chrono::NaiveDate::from_ymd_opt(at.date.year, at.date.month, at.date.day).and_then(
        |date| date.and_hms_opt(at.hour, at.minute, at.second),
    ) {
        Some(naive) => naive.format(pattern).to_string(),
        None => String::new(),
    }
}

/// `chrono::NaiveDate::format` under the pattern `%Y%m%d`: year, month and
/// day, written as `format_wall` writes them.
#[verifier::external_body]
fn format_day(day: CalendarDate, pattern: &str) -> (text: String)
    requires
        pattern@ == DATE_FORMAT@,
    ensures
        text@ == day_text(day@),
{
    match chrono::NaiveDate::from_ymd_opt(day.year, day.month, day.day) {
        Some(date) => date.format(pattern).to_string(),
        None => String::new(),
    }
}

/// A day of the calendar, written as its day and its month in digits with
/// a dot between them, is read as that day of the year that dates are
/// taken in. Zeros in front do no harm.
pub proof fn law_written_date_is_read(day: Day, day_width: nat, month_width: nat)
    requires
        day.is_real(),
    ensures
        date_of(
            padded(day.day as nat, day_width) + seq!['.'] + padded(day.month as nat, month_width),
            day.year,
        ) == Reading::Found(day),
{
    let left = padded(day.day as nat, day_width);
    let right = padded(day.month as nat, month_width);
    lemma_padded(day.day as nat, day_width);
    lemma_padded(day.month as nat, month_width);
    assert forall|i: int| 0 <= i < left.len() implies left[i] != '.' by {
        assert(is_digit(left[i]));
    }
    assert forall|i: int| 0 <= i < right.len() implies right[i] != '.' by {
        assert(is_digit(right[i]));
    }
    lemma_split_pair(left, right, '.');
    assert(is_digit(left[0]));
    assert(is_digit(right[0]));
    assert(u32_of(left) == Some(day.day as u32));
    assert(u32_of(right) == Some(day.month as u32));
}

/// Text that is not two numbers with a dot between them is no date: it
/// is not found to be one, nor found to be an impossible one, in any year.
pub proof fn law_no_date_without_two_numbers(token: Seq<char>, year: int)
    requires
        ({
            let pieces = split(token, '.');
            pieces.len() < 2 || u32_of(pieces[0]) is None || u32_of(pieces[1]) is None
        }),
    ensures
        date_of(token, year) is NoMatch,
{
}

/// The number that a year is written as, with or without a sign.
pub open spec fn signed_decimal(text: Seq<char>) -> int {
    if text.len() > 0 && text[0] == '-' {
        -(decimal(text.skip(1)) as int)
    } else if text.len() > 0 && text[0] == '+' {
        decimal(text.skip(1)) as int
    } else {
        decimal(text) as int
    }
}

/// A year can be read back from its text.
pub proof fn lemma_year_reads_back(year: int)
    ensures
        signed_decimal(year_text(year)) == year,
        year_text(year).len() >= 4,
{
    if 0 <= year <= 9999 {
        lemma_padded(year as nat, 4);
        assert(is_digit(year_text(year)[0]));
    } else if year > 9999 {
        lemma_padded(year as nat, 4);
        assert(year_text(year).skip(1) == padded(year as nat, 4));
    } else {
        lemma_padded((-year) as nat, 4);
        assert(year_text(year).skip(1) == padded((-year) as nat, 4));
    }
}

/// What is exported of a day can be read back: the text ends with two
/// digits for the month and two for the day, and what stands before them
/// is the year.
pub proof fn law_day_text_reads_back(day: Day)
    requires
        day.is_real(),
    ensures
        ({
            let text = day_text(day);
            let n = text.len() as int;
            &&& n >= 8
            &&& signed_decimal(text.take(n - 4)) == day.year
            &&& decimal(text.subrange(n - 4, n - 2)) == day.month
            &&& decimal(text.subrange(n - 2, n)) == day.day
        }),
{
    let text = day_text(day);
    let n = text.len() as int;
    lemma_year_reads_back(day.year);
    lemma_two_digits(day.month as nat);
    lemma_two_digits(day.day as nat);
    lemma_padded(day.month as nat, 2);
    lemma_padded(day.day as nat, 2);
    assert(text.take(n - 4) == year_text(day.year));
    assert(text.subrange(n - 4, n - 2) == padded(day.month as nat, 2));
    assert(text.subrange(n - 2, n) == padded(day.day as nat, 2));
}

/// What is exported of a moment can be read back to the second: the text
/// is the day, a `T`, two digits each for hour, minute and second, and a
/// `Z`.
pub proof fn law_stamp_reads_back(at: Wall)
    requires
        at.is_real(),
    ensures
        ({
            let text = stamp_text(at);
            let n = text.len() as int;
            &&& n >= 16
            &&& text.take(n - 8) == day_text(at.day)
            &&& text[n - 8] == 'T'
            &&& decimal(text.subrange(n - 7, n - 5)) == at.hour
            &&& decimal(text.subrange(n - 5, n - 3)) == at.minute
            &&& decimal(text.subrange(n - 3, n - 1)) == at.second
            &&& text[n - 1] == 'Z'
        }),
{
    let text = stamp_text(at);
    let n = text.len() as int;
    law_day_text_reads_back(at.day);
    lemma_two_digits(at.hour as nat);
    lemma_two_digits(at.minute as nat);
    lemma_two_digits(at.second as nat);
    lemma_padded(at.hour as nat, 2);
    lemma_padded(at.minute as nat, 2);
    lemma_padded(at.second as nat, 2);
    assert(text.take(n - 8) == day_text(at.day));
    assert(text.subrange(n - 7, n - 5) == padded(at.hour as nat, 2));
    assert(text.subrange(n - 5, n - 3) == padded(at.minute as nat, 2));
    assert(text.subrange(n - 3, n - 1) == padded(at.second as nat, 2));
}

/// The record of an event starts the event where the event starts: the
/// first property behind the identifier and the time stamp is `DTSTART`,
/// and its value is the local time of the start, or the day, as text.
pub proof fn law_record_starts_with_the_event(date: DateVariant, summary: Seq<char>)
    ensures
        match date {
            DateVariant::TimeSpan(start, _) => dated_properties(date, summary) matches Ok(rest)
                && rest[0] == ("DTSTART"@, stamp_text(start@.local)),
            DateVariant::DateTime(start) => dated_properties(date, summary) matches Ok(rest)
                && rest[0] == ("DTSTART"@, stamp_text(start@.local)),
            DateVariant::Date(day) => dated_properties(date, summary) matches Ok(rest) && rest[0]
                == ("DTSTART"@, day_text(day@)),
            DateVariant::Month { .. } => dated_properties(date, summary) is Err,
            DateVariant::Year(_) => dated_properties(date, summary) is Err,
        },
{
}

} // verus!
