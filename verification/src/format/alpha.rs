//! The line-oriented diary notation: one entry per line, written as a date,
//! an optional time, optional tags and a description.

use crate::civil::CalendarDate;
use crate::civil::Clock;
use crate::civil::ClockTime;
use crate::civil::Day;
use crate::civil::MAX_YEAR;
use crate::civil::MIN_YEAR;
use crate::civil::day_after;
use crate::civil::days_before_month;
use crate::civil::last_day_number;
use crate::civil::lemma_day_after;
use crate::civil::lemma_day_of_year;
use crate::civil::lemma_number_in_range;
use crate::civil::lemma_number_increases;
use crate::civil::lemma_year_length;
use crate::civil::shows;
use crate::civil::wall;
use crate::format::DateVariant;
use crate::format::NaiveVariant;
use crate::format::Reading;
use crate::format::Written;
use crate::format::date_model;
use crate::format::date_of;
use crate::format::has_place;
use crate::format::is_inside;
use crate::format::is_placed;
use crate::format::range_model;
use crate::format::read_date;
use crate::format::read_time;
use crate::format::read_timespan;
use crate::format::time_model;
use crate::format::time_of;
use crate::format::timespan_of;
use crate::text::chars_of;
use crate::text::join;
use crate::text::join_from;
use crate::text::parse_u32;
use crate::text::split;
use crate::text::split_on;
use crate::text::split_words;
use crate::text::string_of;
use crate::text::trim_end;
use crate::text::trim_end_of;
use crate::text::u32_of;
use crate::text::views;
use crate::text::words;
use vstd::prelude::*;
use vstd::string::*;

verus! {

/// A mark on an entry that decides what is done with it.
#[derive(Clone, Copy, Debug, PartialEq, Eq, Structural)]
pub enum Tag {
    /// The entry goes into the exported calendar.
    PublishToIcs,
    /// The entry is only taken note of.
    Acknowledge,
}

/// Why a line is not an entry.
#[derive(Clone, Copy, Debug, PartialEq, Eq, Structural)]
pub enum Reason {
    /// The line holds fewer than two words.
    TooFewTokens,
    /// The line does not begin with a date.
    NoDate,
    /// The line begins with a date that the calendar does not have.
    ImpossibleDate,
    /// The time zone of the diary has no such time, or has it twice, or the
    /// time cannot be shown where the process runs.
    NoLocalTime,
}

/// How long a span of days is pushed on when it would otherwise end before
/// it begins: one year, counted as 365 days.
pub const YEAR_OF_DAYS: i32 = 365;

/// The tag that a key character stands for.
pub open spec fn tag_of(key: char) -> Option<Tag> {
    if key == 'p' {
        Some(Tag::PublishToIcs)
    } else if key == '#' {
        Some(Tag::Acknowledge)
    } else {
        None
    }
}

/// The tags that `token` declares, one for each of its characters in
/// order, if every character is a key; nothing otherwise.
pub open spec fn tags_of(token: Seq<char>) -> Option<Seq<Tag>> {
    if forall|i: int| 0 <= i < token.len() ==> (#[trigger] tag_of(token[i])) is Some {
        Some(Seq::new(token.len(), |i: int| tag_of(token[i])->0))
    } else {
        None
    }
}

/// The tag that `key` stands for.
pub fn tag_for(key: char) -> (r: Option<Tag>)
    ensures
        r == tag_of(key),
{
    if key == 'p' {
        Some(Tag::PublishToIcs)
    } else if key == '#' {
        Some(Tag::Acknowledge)
    } else {
        None
    }
}

/// Reads a token as a list of tags. One character that is no key rejects
/// the whole token.
pub fn read_tags(token: &Vec<char>) -> (r: Option<Vec<Tag>>)
    ensures
        match r {
            Some(tags) => tags_of(token@) == Some(tags@),
            None => tags_of(token@) is None,
        },
{
    let mut tags: Vec<Tag> = Vec::new();
    let mut i: usize = 0;
    while i < token.len()
        invariant
            i <= token.len(),
            tags@.len() == i,
            forall|k: int| 0 <= k < i ==> (#[trigger] tag_of(token@[k])) == Some(tags@[k]),
        decreases token.len() - i,
    {
        match tag_for(token[i]) {
            Some(tag) => tags.push(tag),
            None => {
                assert(tag_of(token@[i as int]) is None);
                return None;
            },
        }
        i += 1;
    }
    assert(tags@ =~= Seq::new(token@.len(), |i: int| tag_of(token@[i])->0));
    Some(tags)
}

/// Takes the tags off the front of the words from index `from` on: the
/// word at `from` is taken if all of it reads as tags, and otherwise
/// nothing is. Returns the tags and the index of the first word left.
pub fn take_tags(tokens: &Vec<Vec<char>>, from: usize) -> (r: (Vec<Tag>, usize))
    requires
        from <= tokens.len(),
    ensures
        (r.0@, r.1 - from) == leading_tags(views(tokens@).skip(from as int)),
{
    if from < tokens.len() {
        assert(views(tokens@).skip(from as int)[0] == tokens@[from as int]@);
        match read_tags(&tokens[from]) {
            Some(tags) => (tags, from + 1),
            None => (Vec::new(), from),
        }
    } else {
        (Vec::new(), from)
    }
}

/// The tags at the front of `tokens` and the number of words they take
/// up: one if the first word reads as tags, else none.
pub open spec fn leading_tags(tokens: Seq<Seq<char>>) -> (Seq<Tag>, int) {
    if tokens.len() > 0 {
        match tags_of(tokens[0]) {
            Some(tags) => (tags, 1),
            None => (Seq::empty(), 0),
        }
    } else {
        (Seq::empty(), 0)
    }
}

/// A two-letter name of a day of the week, in Finnish or in English.
pub open spec fn is_weekday_label(token: Seq<char>) -> bool {
    token.len() == 2 && is_weekday_pair(token[0], token[1])
}

/// The two letters of a name of a day of the week: `ma ti ke to pe la su`
/// and `Mo Tu We Th Fr Sa Su`.
pub open spec fn is_weekday_pair(a: char, b: char) -> bool {
    ||| a == 'm' && b == 'a'
    ||| a == 't' && b == 'i'
    ||| a == 'k' && b == 'e'
    ||| a == 't' && b == 'o'
    ||| a == 'p' && b == 'e'
    ||| a == 'l' && b == 'a'
    ||| a == 's' && b == 'u'
    ||| a == 'M' && b == 'o'
    ||| a == 'T' && b == 'u'
    ||| a == 'W' && b == 'e'
    ||| a == 'T' && b == 'h'
    ||| a == 'F' && b == 'r'
    ||| a == 'S' && b == 'a'
    ||| a == 'S' && b == 'u'
}

/// Tells whether `token` names a day of the week.
pub fn weekday_label(token: &Vec<char>) -> (b: bool)
    ensures
        b == is_weekday_label(token@),
{
    if token.len() != 2 {
        return false;
    }
    let a = token[0];
    let b = token[1];
    (a == 'm' && b == 'a') || (a == 't' && b == 'i') || (a == 'k' && b == 'e') || (a == 't' && b
        == 'o') || (a == 'p' && b == 'e') || (a == 'l' && b == 'a') || (a == 's' && b == 'u') || (a
        == 'M' && b == 'o') || (a == 'T' && b == 'u') || (a == 'W' && b == 'e') || (a == 'T' && b
        == 'h') || (a == 'F' && b == 'r') || (a == 'S' && b == 'a') || (a == 'S' && b == 'u')
}

/// The first day of a span, written before the dash: a date, or else the
/// bare number of a day, with or without dots behind it, in the month in
/// which the span ends.
pub open spec fn span_start_of(token: Seq<char>, year: int, end: Day) -> Reading<Day> {
    match date_of(token, year) {
        Reading::Found(start) => Reading::Found(start),
        Reading::Impossible => Reading::Impossible,
        Reading::NoMatch => match u32_of(trim_end(token, '.')) {
            None => Reading::NoMatch,
            Some(day) => {
                let start = Day { year, month: end.month, day: day as int };
                if start.is_real() {
                    Reading::Found(start)
                } else {
                    Reading::Impossible
                }
            },
        },
    }
}

/// The last day of a span whose first day is `start` and whose end is
/// written as `end`: `end` itself if it comes after `start`, and otherwise
/// the day 365 days after `end`.
pub open spec fn span_end(start: Day, end: Day) -> Option<Day> {
    if start.is_before(end) {
        Some(end)
    } else {
        day_after(end, YEAR_OF_DAYS as int)
    }
}

/// The span of days that `token` writes, taken in `year`: two days with
/// one dash between them, the second of them a full date.
pub open spec fn datespan_of(token: Seq<char>, year: int) -> Reading<(Day, Day)> {
    let pieces = split(token, '-');
    if pieces.len() != 2 {
        Reading::NoMatch
    } else {
        match date_of(pieces[1], year) {
            Reading::NoMatch => Reading::NoMatch,
            Reading::Impossible => Reading::Impossible,
            Reading::Found(end) => match span_start_of(pieces[0], year, end) {
                Reading::NoMatch => Reading::NoMatch,
                Reading::Impossible => Reading::Impossible,
                Reading::Found(start) => match span_end(start, end) {
                    Some(last) => Reading::Found((start, last)),
                    None => Reading::Impossible,
                },
            },
        }
    }
}

/// What a reading of a span of days stands for.
pub open spec fn span_model(found: Reading<(CalendarDate, CalendarDate)>) -> Reading<(Day, Day)> {
    match found {
        Reading::NoMatch => Reading::NoMatch,
        Reading::Impossible => Reading::Impossible,
        Reading::Found((start, end)) => Reading::Found((start@, end@)),
    }
}

/// Reads what stands before the dash of a span of days that ends on `end`.
pub fn read_span_start(token: &Vec<char>, year: i32, end: CalendarDate) -> (r: Reading<
    CalendarDate,
>)
    ensures
        date_model(r) == span_start_of(token@, year as int, end@),
{
    match read_date(token, year) {
        Reading::Found(start) => Reading::Found(start),
        Reading::Impossible => Reading::Impossible,
        Reading::NoMatch => {
            let bare = trim_end_of(token, '.');
            match parse_u32(&bare) {
                None => Reading::NoMatch,
                Some(day) => match CalendarDate::from_ymd(year, end.month(), day) {
                    Some(start) => Reading::Found(start),
                    None => Reading::Impossible,
                },
            }
        },
    }
}

/// Settles where a span of days ends: on `end` if that comes after
/// `start`, and 365 days later if not.
pub fn settle_span_end(start: CalendarDate, end: CalendarDate) -> (r: Option<CalendarDate>)
    ensures
        shows(r, span_end(start@, end@)),
{
    if start.before(&end) {
        Some(end)
    } else {
        end.plus_days(YEAR_OF_DAYS)
    }
}

/// Reads a token as a span of days of `year`.
pub fn read_datespan(token: &Vec<char>, year: i32) -> (r: Reading<(CalendarDate, CalendarDate)>)
    ensures
        span_model(r) == datespan_of(token@, year as int),
{
    let pieces = split_on(token, '-');
    assert(views(pieces@).len() == pieces@.len());
    if pieces.len() != 2 {
        return Reading::NoMatch;
    }
    assert(views(pieces@)[0] == pieces@[0]@);
    assert(views(pieces@)[1] == pieces@[1]@);
    let end = match read_date(&pieces[1], year) {
        Reading::Found(end) => end,
        Reading::Impossible => return Reading::Impossible,
        Reading::NoMatch => return Reading::NoMatch,
    };
    let start = match read_span_start(&pieces[0], year, end) {
        Reading::Found(start) => start,
        Reading::Impossible => return Reading::Impossible,
        Reading::NoMatch => return Reading::NoMatch,
    };
    match settle_span_end(start, end) {
        Some(last) => Reading::Found((start, last)),
        None => Reading::Impossible,
    }
}

/// The time at which a span of days begins where none is written.
pub open spec fn span_opening() -> Clock {
    Clock { hour: 6, minute: 0 }
}

/// The time at which a span of days ends.
pub open spec fn span_closing() -> Clock {
    Clock { hour: 23, minute: 59 }
}

/// What the first two words of an entry come to, given how the first reads
/// as a span of days and as a date, and the second as a time of day and as
/// a span of times: the date of the entry and the number of words that
/// wrote it.
///
/// A span of days goes first: it begins at the time, or at 06:00 where
/// there is none, and ends at 23:59. Then a date: with the time it is a
/// moment, with the span of times a span within the day, alone it is the
/// whole day. The second word counts only where it was used.
pub open spec fn settled(
    span: Reading<(Day, Day)>,
    date: Reading<Day>,
    time: Option<Clock>,
    range: Option<(Clock, Clock)>,
) -> Result<(Written, int), Reason> {
    match span {
        Reading::Found((first, last)) => Ok(
            (
                Written::TimeSpan(
                    wall(
                        first,
                        match time {
                            Some(at) => at,
                            None => span_opening(),
                        },
                    ),
                    wall(last, span_closing()),
                ),
                if time is Some {
                    2
                } else {
                    1
                },
            ),
        ),
        Reading::Impossible => Err(Reason::ImpossibleDate),
        Reading::NoMatch => match date {
            Reading::Found(day) => match time {
                Some(at) => Ok((Written::DateTime(wall(day, at)), 2)),
                None => match range {
                    Some((from, to)) => Ok((Written::TimeSpan(wall(day, from), wall(day, to)), 2)),
                    None => Ok((Written::Date(day), 1)),
                },
            },
            Reading::Impossible => Err(Reason::ImpossibleDate),
            Reading::NoMatch => Err(Reason::NoDate),
        },
    }
}

/// What `found` stands for.
pub open spec fn settled_model(found: Result<(NaiveVariant, usize), Reason>) -> Result<
    (Written, int),
    Reason,
> {
    match found {
        Ok((date, used)) => Ok((date@, used as int)),
        Err(reason) => Err(reason),
    }
}

/// Decides the date of an entry from the readings of its first two words.
pub fn settle(
    span: Reading<(CalendarDate, CalendarDate)>,
    date: Reading<CalendarDate>,
    time: Option<ClockTime>,
    range: Option<(ClockTime, ClockTime)>,
) -> (r: Result<(NaiveVariant, usize), Reason>)
    ensures
        settled_model(r) == settled(
            span_model(span),
            date_model(date),
            time_model(time),
            range_model(range),
        ),
{
    match span {
        Reading::Found((first, last)) => {
            let closing = ClockTime::from_hm(23, 59).unwrap();
            match time {
                Some(at) => Ok((NaiveVariant::TimeSpan(first.at(at), last.at(closing)), 2)),
                None => {
                    let opening = ClockTime::from_hm(6, 0).unwrap();
                    Ok((NaiveVariant::TimeSpan(first.at(opening), last.at(closing)), 1))
                },
            }
        },
        Reading::Impossible => Err(Reason::ImpossibleDate),
        Reading::NoMatch => match date {
            Reading::Found(day) => match time {
                Some(at) => Ok((NaiveVariant::DateTime(day.at(at)), 2)),
                None => match range {
                    Some((from, to)) => Ok((NaiveVariant::TimeSpan(day.at(from), day.at(to)), 2)),
                    None => Ok((NaiveVariant::Date(day), 1)),
                },
            },
            Reading::Impossible => Err(Reason::ImpossibleDate),
            Reading::NoMatch => Err(Reason::NoDate),
        },
    }
}

/// An entry of the diary as it is written, before its date is placed in a
/// time zone.
#[derive(Clone, Debug, PartialEq, Eq)]
pub struct Entry {
    pub date: NaiveVariant,
    pub tags: Vec<Tag>,
    pub description: String,
}

/// What an `Entry` stands for.
pub struct EntryView {
    pub date: Written,
    pub tags: Seq<Tag>,
    pub description: Seq<char>,
}

impl View for Entry {
    type V = EntryView;

    open spec fn view(&self) -> EntryView {
        EntryView { date: self.date@, tags: self.tags@, description: self.description@ }
    }
}

/// The entry that the words `tokens` write in `year`: the date from the
/// first word or the first two, then tags if the next word is all tags,
/// then the remaining words, joined by single spaces, as the description.
/// Where there is no second word, no time is read; where no word is left
/// behind the date, there are no tags and the description is empty.
pub open spec fn entry_of(tokens: Seq<Seq<char>>, year: int) -> Result<EntryView, Reason> {
    if tokens.len() == 0 {
        Err(Reason::TooFewTokens)
    } else {
        match settled(
            datespan_of(tokens[0], year),
            date_of(tokens[0], year),
            if tokens.len() >= 2 {
                time_of(tokens[1])
            } else {
                None
            },
            if tokens.len() >= 2 {
                timespan_of(tokens[1])
            } else {
                None
            },
        ) {
            Err(reason) => Err(reason),
            Ok((date, used)) => {
                let rest = tokens.skip(used);
                let (tags, taken) = leading_tags(rest);
                Ok(EntryView { date, tags, description: join(rest.skip(taken), ' ') })
            },
        }
    }
}

/// The entry that `line` writes in `year`. The line is cut into words; it
/// needs two of them. A name of a day of the week in front is passed
/// over.
pub open spec fn line_reading(line: Seq<char>, year: int) -> Result<EntryView, Reason> {
    let tokens = words(line);
    if tokens.len() < 2 {
        Err(Reason::TooFewTokens)
    } else if is_weekday_label(tokens[0]) {
        entry_of(tokens.skip(1), year)
    } else {
        entry_of(tokens, year)
    }
}

/// Whether every day of what is written lies in `year` or in the year
/// after it.
pub open spec fn is_of_year(written: Written, year: int) -> bool {
    match written {
        Written::TimeSpan(start, end) => year <= start.day.year <= year + 1 && year
            <= end.day.year <= year + 1,
        Written::DateTime(at) => at.day.year == year,
        Written::Date(day) => day.year == year,
    }
}

/// A span of days that is written in a year begins in that year and ends
/// in it or in the year after it.
pub proof fn lemma_span_is_read_in_year(token: Seq<char>, year: int)
    requires
        MIN_YEAR <= year < MAX_YEAR - 1,
    ensures
        datespan_of(token, year) matches Reading::Found((start, last)) ==> start.year == year
            && year <= last.year <= year + 1,
{
    if let Reading::Found((start, last)) = datespan_of(token, year) {
        let pieces = split(token, '-');
        let end = date_of(pieces[1], year)->Found_0;
        if !start.is_before(end) {
            lemma_day_after(end, YEAR_OF_DAYS as int);
            lemma_day_of_year(end);
            lemma_year_length(year);
            lemma_year_length(year + 1);
            if last.year < year {
                lemma_number_increases(last, end);
            }
            if last.year > year + 1 {
                let after = Day { year: year + 2, month: 1, day: 1 };
                if after.is_before(last) {
                    lemma_number_increases(after, last);
                }
                reveal_with_fuel(days_before_month, 2);
            }
        }
    }
}

/// What a line writes lies in the year that it is read in, or, where a
/// span of days is pushed on, in the year after it.
pub proof fn lemma_line_is_read_in_year(line: Seq<char>, year: int)
    ensures
        line_reading(line, year) matches Ok(entry) ==> {
            &&& MIN_YEAR <= year <= MAX_YEAR
            &&& year < MAX_YEAR - 1 ==> is_of_year(entry.date, year)
            &&& MIN_YEAR < year < MAX_YEAR - 1 ==> is_inside(entry.date)
        },
{
    let tokens = if is_weekday_label(words(line)[0]) {
        words(line).skip(1)
    } else {
        words(line)
    };
    if MIN_YEAR <= year < MAX_YEAR - 1 {
        lemma_span_is_read_in_year(tokens[0], year);
    }
}

/// What `found` stands for.
pub open spec fn entry_model(found: Result<Entry, Reason>) -> Result<EntryView, Reason> {
    match found {
        Ok(entry) => Ok(entry@),
        Err(reason) => Err(reason),
    }
}

/// Reads the words from index `first` on as an entry of `year`.
fn read_words(tokens: &Vec<Vec<char>>, first: usize, year: i32) -> (r: Result<Entry, Reason>)
    requires
        first <= tokens.len(),
    ensures
        entry_model(r) == entry_of(views(tokens@).skip(first as int), year as int),
{
    let ghost all = views(tokens@);
    let ghost mine = all.skip(first as int);
    if tokens.len() - first < 1 {
        return Err(Reason::TooFewTokens);
    }
    assert(mine[0] == tokens@[first as int]@);
    let span = read_datespan(&tokens[first], year);
    let date = read_date(&tokens[first], year);
    let (time, range) = if tokens.len() - first >= 2 {
        assert(mine[1] == tokens@[first + 1]@);
        (read_time(&tokens[first + 1]), read_timespan(&tokens[first + 1]))
    } else {
        (None, None)
    };
    let (when, used) = match settle(span, date, time, range) {
        Ok(found) => found,
        Err(reason) => return Err(reason),
    };
    let next = first + used;
    assert(mine.skip(used as int) == all.skip(next as int));
    let (tags, rest) = take_tags(tokens, next);
    assert(all.skip(next as int).skip(rest - next) == all.skip(rest as int));
    let description = string_of(&join_from(tokens, rest, ' '));
    Ok(Entry { date: when, tags, description })
}

/// Reads a line of the diary as an entry of `year`.
pub fn read_entry(line: &Vec<char>, year: i32) -> (r: Result<Entry, Reason>)
    ensures
        entry_model(r) == line_reading(line@, year as int),
{
    let tokens = split_words(line);
    assert(views(tokens@).len() == tokens@.len());
    if tokens.len() < 2 {
        return Err(Reason::TooFewTokens);
    }
    assert(views(tokens@)[0] == tokens@[0]@);
    assert(views(tokens@).skip(0) == views(tokens@));
    if weekday_label(&tokens[0]) {
        read_words(&tokens, 1, year)
    } else {
        read_words(&tokens, 0, year)
    }
}

/// A line that is not an entry, and why.
#[derive(Debug)]
pub struct ParseError {
    pub reason: Reason,
    /// The line as it was given.
    pub line: String,
}

impl ParseError {
    /// What went wrong, in words, with the line that it went wrong on.
    pub fn message(&self) -> (text: String)
        ensures
            text@ == (match self.reason {
                Reason::TooFewTokens => "not enough elements to create both date and description in "@,
                Reason::NoDate => "could not parse date from "@,
                Reason::ImpossibleDate => "the calendar has no such day as in "@,
                Reason::NoLocalTime => "the time zone has no such time as in "@,
            }) + self.line@,
    {
        let mut text = String::from_str(
            match self.reason {
                Reason::TooFewTokens => "not enough elements to create both date and description in ",
                Reason::NoDate => "could not parse date from ",
                Reason::ImpossibleDate => "the calendar has no such day as in ",
                Reason::NoLocalTime => "the time zone has no such time as in ",
            },
        );
        text.append(self.line.as_str());
        text
    }
}

impl Entry {
    /// Reads a line of the diary as an entry of `year`.
    ///
    /// The line is an entry exactly if `line_reading` finds one, and the
    /// error names the reason that `line_reading` gives.
    pub fn from_str(s: &str, year: i32) -> (r: Result<Entry, ParseError>)
        ensures
            match r {
                Ok(entry) => line_reading(s@, year as int) == Ok::<EntryView, Reason>(entry@),
                Err(error) => line_reading(s@, year as int) == Err::<EntryView, Reason>(
                    error.reason,
                ) && error.line@ == s@,
            },
    {
        let line = chars_of(s);
        match read_entry(&line, year) {
            Ok(entry) => Ok(entry),
            Err(reason) => Err(ParseError { reason, line: String::from_str(s) }),
        }
    }
}

/// An entry of the diary: when it takes place, its tags in the order in
/// which they are written, and its description.
#[derive(Clone, Debug, PartialEq, Eq)]
pub struct Event {
    pub date: DateVariant,
    pub tags: Vec<Tag>,
    pub description: String,
}

impl Event {
    /// The event that `entry` becomes once `date` has been made of its
    /// date: none where there is no date.
    pub fn of_entry(entry: Entry, date: Option<DateVariant>) -> (r: Option<Event>)
        ensures
            r is Some <==> date is Some,
            r matches Some(event) ==> Some(event.date) == date && event.tags == entry.tags
                && event.description == entry.description,
    {
        match date {
            Some(date) => Some(Event { date, tags: entry.tags, description: entry.description }),
            None => None,
        }
    }

    /// Reads a line of the diary as an event, dates without a year being
    /// taken in `year`.
    ///
    /// A line that `line_reading` rejects is rejected for the same reason.
    /// A line that it reads becomes an event with the same tags and
    /// description and with its date placed in the time zone of the diary,
    /// or is rejected with `NoLocalTime`. It is rejected whenever that zone
    /// does not have what is written. It is an event whenever the zone has
    /// what is written and `year` is neither the first nor one of the last
    /// two of the supported years; in those years a time that the zone has
    /// may still be rejected, where the process cannot show its instant as
    /// a local time.
    pub fn from_str(s: &str, year: i32) -> (r: Result<Event, ParseError>)
        ensures
            match line_reading(s@, year as int) {
                Err(reason) => r matches Err(error) && error.reason == reason,
                Ok(entry) => match r {
                    Ok(event) => is_placed(entry.date, event.date) && event.tags@ == entry.tags
                        && event.description@ == entry.description,
                    Err(error) => error.reason == Reason::NoLocalTime && !(has_place(entry.date)
                        && is_inside(entry.date)),
                },
            },
            line_reading(s@, year as int) matches Ok(entry) && !has_place(entry.date) ==> r is Err,
            line_reading(s@, year as int) matches Ok(entry) && has_place(entry.date) && MIN_YEAR
                < year < MAX_YEAR - 1 ==> r is Ok,
            r matches Err(error) ==> error.line@ == s@,
    {
        proof {
            lemma_line_is_read_in_year(s@, year as int);
        }
        let entry = match Entry::from_str(s, year) {
            Ok(entry) => entry,
            Err(error) => return Err(error),
        };
        let date = entry.date.in_zone();
        match Event::of_entry(entry, date) {
            Some(event) => Ok(event),
            None => Err(ParseError { reason: Reason::NoLocalTime, line: String::from_str(s) }),
        }
    }
}

impl crate::format::Event for Event {
    open spec fn when(&self) -> DateVariant {
        self.date
    }

    open spec fn summary(&self) -> Seq<char> {
        self.description@
    }

    fn date(&self) -> (date: &DateVariant) {
        &self.date
    }

    fn description(&self) -> (text: &str) {
        self.description.as_str()
    }
}

/// A span of days whose end, as written, does not come after its start
/// ends exactly 365 days after the end as written, whether or not a leap
/// day lies between; a span whose end comes after its start ends there.
/// Only where the supported years run out is there no such span.
pub proof fn law_span_is_pushed_by_365_days(start: Day, end: Day)
    requires
        start.is_real(),
        end.is_real(),
    ensures
        start.is_before(end) ==> span_end(start, end) == Some(end),
        !start.is_before(end) ==> match span_end(start, end) {
            Some(last) => last.is_real() && last.number() == end.number() + 365,
            None => end.number() + 365 > last_day_number(),
        },
{
    lemma_day_after(end, YEAR_OF_DAYS as int);
    lemma_number_in_range(end);
}

/// A span of days that is read never ends before it begins, as both of
/// its days are written in the same year; it may end on the day on which
/// it begins.
pub proof fn law_span_does_not_end_early(start: Day, end: Day)
    requires
        start.is_real(),
        end.is_real(),
        start.year == end.year,
    ensures
        span_end(start, end) matches Some(last) ==> start.number() <= last.number(),
{
    lemma_day_after(end, YEAR_OF_DAYS as int);
    if start.is_before(end) {
        lemma_number_increases(start, end);
    } else {
        lemma_day_of_year(start);
        lemma_day_of_year(end);
    }
}

/// The word of `line` that writes its date: the first, or the second
/// behind a name of a day of the week.
pub open spec fn date_word(line: Seq<char>) -> Seq<char> {
    if is_weekday_label(words(line)[0]) {
        words(line)[1]
    } else {
        words(line)[0]
    }
}

/// A line is an entry exactly if it has two words and its date is read: as
/// a span of days, or, where it is not written as one, as a day. Nothing
/// else makes a line fail: not the lack of a time, nor a word that is not
/// all tags, nor the lack of a description. The reason tells which of the
/// two is missing, and whether the date is not written or not in the
/// calendar.
pub proof fn law_line_needs_two_words_and_a_date(line: Seq<char>, year: int)
    ensures
        match line_reading(line, year) {
            Ok(_) => words(line).len() >= 2 && (datespan_of(date_word(line), year) is Found || (
            datespan_of(date_word(line), year) is NoMatch && date_of(date_word(line), year)
                is Found)),
            Err(Reason::TooFewTokens) => words(line).len() < 2,
            Err(Reason::NoDate) => words(line).len() >= 2 && datespan_of(date_word(line), year)
                is NoMatch && date_of(date_word(line), year) is NoMatch,
            Err(Reason::ImpossibleDate) => words(line).len() >= 2 && (datespan_of(
                date_word(line),
                year,
            ) is Impossible || (datespan_of(date_word(line), year) is NoMatch && date_of(
                date_word(line),
                year,
            ) is Impossible)),
            Err(Reason::NoLocalTime) => false,
        },
{
}

/// Tags are all or nothing: one character that is no key makes the whole
/// word no list of tags, so that no tag is taken from it and the word
/// stays where it is, at the front of the description.
pub proof fn law_tags_all_or_nothing(tokens: Seq<Seq<char>>, at: int)
    requires
        tokens.len() > 0,
        0 <= at < tokens[0].len(),
        tag_of(tokens[0][at]) is None,
    ensures
        tags_of(tokens[0]) is None,
        leading_tags(tokens) == (Seq::<Tag>::empty(), 0int),
{
}

/// A word of keys only is a list of tags, one for each key in order.
pub proof fn law_keys_are_tags(token: Seq<char>)
    requires
        forall|i: int| 0 <= i < token.len() ==> token[i] == 'p' || token[i] == '#',
    ensures
        tags_of(token) matches Some(tags) && tags.len() == token.len() && forall|i: int|
            0 <= i < token.len() ==> tags[i] == (if token[i] == 'p' {
                Tag::PublishToIcs
            } else {
                Tag::Acknowledge
            }),
{
    assert forall|i: int| 0 <= i < token.len() implies (#[trigger] tag_of(token[i])) is Some by {}
}

} // verus!
