//! The calendar notation: a headline sets the day, and the lines below it,
//! each begun with a bullet, are what takes place on that day.

use crate::civil::CalendarDate;
use crate::civil::ClockTime;
use crate::civil::Day;
use crate::civil::wall;
use crate::format::DateVariant;
use crate::format::NaiveVariant;
use crate::format::Reading;
use crate::format::Written;
use crate::format::date_of;
use crate::format::has_place;
use crate::format::is_inside;
use crate::format::is_placed;
use crate::format::read_date;
use crate::format::read_time;
use crate::format::read_timespan;
use crate::format::time_of;
use crate::format::timespan_of;
use crate::text::chars_of;
use crate::text::join;
use crate::text::join_from;
use crate::text::split;
use crate::text::split_on;
use crate::text::split_words;
use crate::text::string_of;
use crate::text::views;
use crate::text::words;
use vstd::prelude::*;
use vstd::string::*;

verus! {

/// Something that takes place at some time of a day.
#[derive(Clone, Debug, PartialEq, Eq)]
pub struct Event {
    pub date: DateVariant,
    pub description: String,
}

impl crate::format::Event for Event {
    open spec fn when(&self) -> DateVariant {
        self.date
    }

    open spec fn summary(&self) -> Seq<char> {
        self.description@
    }

    fn date(&self) -> (date: &DateVariant) {
        &self.date
    }

    fn description(&self) -> (text: &str) {
        self.description.as_str()
    }
}

/// An event as it is written, before its time is placed in a time zone.
#[derive(Clone, Debug, PartialEq, Eq)]
pub struct Note {
    pub date: NaiveVariant,
    pub description: String,
}

/// What a `Note` stands for.
pub struct NoteView {
    pub date: Written,
    pub description: Seq<char>,
}

impl View for Note {
    type V = NoteView;

    open spec fn view(&self) -> NoteView {
        NoteView { date: self.date@, description: self.description@ }
    }
}

/// What a line is, going by its first word.
#[derive(Clone, Copy, Debug, PartialEq, Eq, Structural)]
pub enum LineType {
    /// A headline, which sets the day.
    Date,
    /// A bullet, which tells of an event.
    Event,
}

/// What is known of the day at some line: the day itself under a
/// headline, and only the year once an empty line has ended its part.
#[derive(Clone, Copy, Debug, PartialEq, Eq, Structural)]
pub enum Context {
    Year(i32),
    Date(CalendarDate),
}

/// What a `Context` stands for.
pub enum Known {
    Year(int),
    Date(Day),
}

impl View for Context {
    type V = Known;

    open spec fn view(&self) -> Known {
        match *self {
            Context::Year(year) => Known::Year(year as int),
            Context::Date(day) => Known::Date(day@),
        }
    }
}

impl Known {
    /// The year that is known.
    pub open spec fn year(self) -> int {
        match self {
            Known::Year(year) => year,
            Known::Date(day) => day.year,
        }
    }

    /// What is left of it behind an empty line: the year.
    pub open spec fn faded(self) -> Known {
        Known::Year(self.year())
    }
}

/// The kind of line that `token` begins: `###` a headline, `*` and `-` a
/// bullet.
pub open spec fn line_type_of(token: Seq<char>) -> Option<LineType> {
    if token == seq!['#', '#', '#'] {
        Some(LineType::Date)
    } else if token == seq!['*'] || token == seq!['-'] {
        Some(LineType::Event)
    } else {
        None
    }
}

/// The day that a headline sets: the last of `tokens` that reads as a day
/// of `year` that the calendar has.
pub open spec fn last_date_in(tokens: Seq<Seq<char>>, year: int) -> Option<Day>
    decreases tokens.len(),
{
    if tokens.len() == 0 {
        None
    } else {
        match date_of(tokens.last(), year) {
            Reading::Found(day) => Some(day),
            _ => last_date_in(tokens.drop_last(), year),
        }
    }
}

/// The events that a bullet on `day` tells of: one from `timing` to its
/// end if `timing` reads as a span of times, and one at `timing` if it
/// reads as a time of day.
pub open spec fn notes_at(day: Day, timing: Seq<char>, description: Seq<char>) -> Seq<NoteView> {
    let spans: Seq<NoteView> = match timespan_of(timing) {
        Some((start, end)) => seq![
            NoteView { date: Written::TimeSpan(wall(day, start), wall(day, end)), description },
        ],
        None => Seq::empty(),
    };
    let moments: Seq<NoteView> = match time_of(timing) {
        Some(at) => seq![NoteView { date: Written::DateTime(wall(day, at)), description }],
        None => Seq::empty(),
    };
    spans + moments
}

/// What is known of the day behind `line`, and the events that the line
/// tells of.
///
/// An empty line leaves only the year known. A line of one word, or one
/// that begins with neither `###` nor a bullet, changes nothing. A
/// headline sets the day, if a day is written in it. A bullet tells of
/// events only while the day is known: its second word is when, and the
/// words behind that are the description.
pub open spec fn line_effect(line: Seq<char>, known: Known) -> (Known, Seq<NoteView>) {
    let tokens = words(line);
    if tokens.len() == 0 {
        (known.faded(), Seq::empty())
    } else if tokens.len() < 2 {
        (known, Seq::empty())
    } else {
        match line_type_of(tokens[0]) {
            None => (known, Seq::empty()),
            Some(LineType::Date) => match last_date_in(tokens.skip(1), known.year()) {
                Some(day) => (Known::Date(day), Seq::empty()),
                None => (known, Seq::empty()),
            },
            Some(LineType::Event) => match known {
                Known::Year(_) => (known, Seq::empty()),
                Known::Date(day) => (known, notes_at(day, tokens[1], join(tokens.skip(2), ' '))),
            },
        }
    }
}

/// What is known of the day behind all of `lines`.
pub open spec fn known_after(lines: Seq<Seq<char>>, known: Known) -> Known
    decreases lines.len(),
{
    if lines.len() == 0 {
        known
    } else {
        line_effect(lines.last(), known_after(lines.drop_last(), known)).0
    }
}

/// The events that `lines` tell of, in order.
pub open spec fn notes_of(lines: Seq<Seq<char>>, known: Known) -> Seq<NoteView>
    decreases lines.len(),
{
    if lines.len() == 0 {
        Seq::empty()
    } else {
        notes_of(lines.drop_last(), known) + line_effect(
            lines.last(),
            known_after(lines.drop_last(), known),
        ).1
    }
}

/// What the views of a sequence of notes are.
pub open spec fn note_views(notes: Seq<Note>) -> Seq<NoteView> {
    Seq::new(notes.len(), |i: int| notes[i]@)
}

/// Tells what kind of line `token` begins.
pub fn line_type(token: &Vec<char>) -> (r: Option<LineType>)
    ensures
        r == line_type_of(token@),
{
    if token.len() == 3 && token[0] == '#' && token[1] == '#' && token[2] == '#' {
        assert(token@ =~= seq!['#', '#', '#']);
        Some(LineType::Date)
    } else if token.len() == 1 && (token[0] == '*' || token[0] == '-') {
        assert(token@ =~= seq![token@[0]]);
        Some(LineType::Event)
    } else {
        None
    }
}

/// What `found` stands for.
pub open spec fn day_model(found: Option<CalendarDate>) -> Option<Day> {
    match found {
        Some(day) => Some(day@),
        None => None,
    }
}

/// Finds the day that a headline sets among the words from `from` on.
pub fn read_headline(tokens: &Vec<Vec<char>>, from: usize, year: i32) -> (r: Option<CalendarDate>)
    requires
        from <= tokens.len(),
    ensures
        day_model(r) == last_date_in(views(tokens@).skip(from as int), year as int),
{
    let ghost mine = views(tokens@).skip(from as int);
    let mut found: Option<CalendarDate> = None;
    let mut i: usize = from;
    assert(mine.take(0) == Seq::<Seq<char>>::empty());
    while i < tokens.len()
        invariant
            from <= i <= tokens.len(),
            mine == views(tokens@).skip(from as int),
            day_model(found) == last_date_in(mine.take(i - from), year as int),
        decreases tokens.len() - i,
    {
        proof {
            let upto = mine.take(i + 1 - from);
            assert(upto.drop_last() == mine.take(i - from));
            assert(upto.last() == tokens@[i as int]@);
        }
        match read_date(&tokens[i], year) {
            Reading::Found(day) => {
                found = Some(day);
            },
            _ => {},
        }
        i += 1;
    }
    assert(mine.take(mine.len() as int) == mine);
    found
}

/// Adds to `notes` the events that a bullet on `day` tells of, where
/// `range` and `time` are what its word for the time reads as.
pub fn note_down(
    notes: &mut Vec<Note>,
    day: CalendarDate,
    range: Option<(ClockTime, ClockTime)>,
    time: Option<ClockTime>,
    description: &Vec<char>,
)
    ensures
        note_views(final(notes)@) == note_views(old(notes)@) + (match range {
            Some((start, end)) => seq![
                NoteView {
                    date: Written::TimeSpan(wall(day@, start@), wall(day@, end@)),
                    description: description@,
                },
            ],
            None => Seq::<NoteView>::empty(),
        }) + (match time {
            Some(at) => seq![
                NoteView { date: Written::DateTime(wall(day@, at@)), description: description@ },
            ],
            None => Seq::<NoteView>::empty(),
        }),
{
    let ghost before = notes@;
    if let Some((start, end)) = range {
        let note = Note {
            date: NaiveVariant::TimeSpan(day.at(start), day.at(end)),
            description: string_of(description),
        };
        notes.push(note);
    }
    let ghost middle = notes@;
    if let Some(at) = time {
        let note = Note { date: NaiveVariant::DateTime(day.at(at)), description: string_of(description) };
        notes.push(note);
    }
    assert(note_views(middle) =~= note_views(before) + (match range {
        Some((start, end)) => seq![
            NoteView {
                date: Written::TimeSpan(wall(day@, start@), wall(day@, end@)),
                description: description@,
            },
        ],
        None => Seq::<NoteView>::empty(),
    }));
    assert(note_views(notes@) =~= note_views(middle) + (match time {
        Some(at) => seq![
            NoteView { date: Written::DateTime(wall(day@, at@)), description: description@ },
        ],
        None => Seq::<NoteView>::empty(),
    }));
}

/// Reads one line: adds the events that it tells of to `notes` and
/// returns what is known of the day behind it.
pub fn read_line(line: &Vec<char>, context: Context, notes: &mut Vec<Note>) -> (next: Context)
    ensures
        next@ == line_effect(line@, context@).0,
        note_views(final(notes)@) == note_views(old(notes)@) + line_effect(line@, context@).1,
{
    let tokens = split_words(line);
    let ghost all = views(tokens@);
    assert(all.len() == tokens@.len());
    assert(note_views(notes@) + Seq::<NoteView>::empty() == note_views(notes@));
    if tokens.len() == 0 {
        return match context {
            Context::Year(year) => Context::Year(year),
            Context::Date(day) => Context::Year(day.year()),
        };
    }
    if tokens.len() < 2 {
        return context;
    }
    assert(all[0] == tokens@[0]@);
    assert(all[1] == tokens@[1]@);
    match line_type(&tokens[0]) {
        None => context,
        Some(LineType::Date) => {
            let year = match context {
                Context::Year(year) => year,
                Context::Date(day) => day.year(),
            };
            match read_headline(&tokens, 1, year) {
                Some(day) => Context::Date(day),
                None => context,
            }
        },
        Some(LineType::Event) => {
            match context {
                Context::Year(_) => {},
                Context::Date(day) => {
                    let range = read_timespan(&tokens[1]);
                    let time = read_time(&tokens[1]);
                    let description = join_from(&tokens, 2, ' ');
                    note_down(notes, day, range, time, &description);
                },
            }
            context
        },
    }
}

/// Reads a text in the calendar notation into the events that it tells
/// of, as they are written. At the first line the day is `date_ctx`.
pub fn read_calendar(source: &str, date_ctx: CalendarDate) -> (notes: Vec<Note>)
    ensures
        note_views(notes@) == notes_of(split(source@, '\n'), Known::Date(date_ctx@)),
{
    let text = chars_of(source);
    let lines = split_on(&text, '\n');
    let ghost all = split(source@, '\n');
    let ghost start = Known::Date(date_ctx@);
    let mut notes: Vec<Note> = Vec::new();
    let mut context = Context::Date(date_ctx);
    let mut i: usize = 0;
    assert(views(lines@).len() == lines@.len());
    assert(all.take(0) == Seq::<Seq<char>>::empty());
    assert(note_views(notes@) == Seq::<NoteView>::empty());
    while i < lines.len()
        invariant
            i <= lines.len(),
            all == views(lines@),
            all.len() == lines@.len(),
            start == Known::Date(date_ctx@),
            note_views(notes@) == notes_of(all.take(i as int), start),
            context@ == known_after(all.take(i as int), start),
        decreases lines.len() - i,
    {
        proof {
            let upto = all.take(i + 1);
            assert(upto.drop_last() == all.take(i as int));
            assert(upto.last() == lines@[i as int]@);
        }
        context = read_line(&lines[i], context, &mut notes);
        i += 1;
    }
    assert(all.take(all.len() as int) == all);
    notes
}

/// Whether `event` is `note` with its time placed in the time zone of the
/// diary.
pub open spec fn tells(event: Event, note: NoteView) -> bool {
    is_placed(note.date, event.date) && event.description@ == note.description
}

/// Whether `events` are `notes` placed in the time zone of the diary, in
/// order. A note is missing among the events if the zone does not have the
/// time that it writes. Otherwise it is there, unless it writes a time in
/// the first or the last of the supported years, in which case it may be
/// missing.
pub open spec fn placed_from(notes: Seq<NoteView>, events: Seq<Event>) -> bool
    decreases notes.len(),
{
    if notes.len() == 0 {
        events.len() == 0
    } else {
        ||| {
            &&& events.len() > 0
            &&& tells(events.last(), notes.last())
            &&& placed_from(notes.drop_last(), events.drop_last())
        }
        ||| {
            &&& !(has_place(notes.last().date) && is_inside(notes.last().date))
            &&& placed_from(notes.drop_last(), events)
        }
    }
}

/// The event that `note` becomes once `date` has been made of its time:
/// none where there is no date.
pub fn of_note(note: &Note, date: Option<DateVariant>) -> (r: Option<Event>)
    ensures
        r is Some <==> date is Some,
        r matches Some(event) ==> Some(event.date) == date && event.description@
            == note.description@,
{
    match date {
        Some(date) => Some(Event { date, description: note.description.clone() }),
        None => None,
    }
}

/// Reads a text in the calendar notation into events, each with its time
/// placed in the time zone of the diary. At the first line the day is
/// `date_ctx`.
pub fn parse_calendar(source: &str, date_ctx: CalendarDate) -> (events: Vec<Event>)
    ensures
        placed_from(notes_of(split(source@, '\n'), Known::Date(date_ctx@)), events@),
{
    let notes = read_calendar(source, date_ctx);
    let ghost all = note_views(notes@);
    let mut events: Vec<Event> = Vec::new();
    let mut i: usize = 0;
    assert(all.take(0) == Seq::<NoteView>::empty());
    while i < notes.len()
        invariant
            i <= notes.len(),
            all == note_views(notes@),
            placed_from(all.take(i as int), events@),
        decreases notes.len() - i,
    {
        proof {
            let upto = all.take(i + 1);
            assert(upto.drop_last() == all.take(i as int));
            assert(upto.last() == notes@[i as int]@);
        }
        let date = notes[i].date.in_zone();
        match of_note(&notes[i], date) {
            Some(event) => {
                assert(events@.push(event).drop_last() == events@);
                events.push(event);
            },
            None => {},
        }
        i += 1;
    }
    assert(all.take(all.len() as int) == all);
    events
}

} // verus!
