//! Whole diaries: reading every line of a text, with the year that dates
//! are taken in carried from line to line, and turning what was read into
//! a calendar file.

use crate::format::CreateIcsEvent;
use crate::format::ExportError;
use crate::format::Part;
use crate::format::alpha::Entry;
use crate::format::alpha::EntryView;
use crate::format::alpha::Event;
use crate::format::alpha::Reason;
use crate::format::alpha::Tag;
use crate::format::alpha::line_reading;
use crate::format::alpha::read_entry;
use crate::format::component_view;
use crate::format::dated_properties;
use crate::format::has_place;
use crate::format::is_inside;
use crate::format::is_placed;
use crate::format::is_record_part;
use crate::text::all_digits;
use crate::text::chars_of;
use crate::text::i32_of;
use crate::text::is_blank;
use crate::text::is_digit;
use crate::text::lemma_unbroken_is_one_word;
use crate::text::parse_i32;
use crate::text::split;
use crate::text::split_on;
use crate::text::views;
use crate::zone::ZONE;
use vstd::prelude::*;
use vstd::string::*;

verus! {

/// The notations that a diary can be written in.
#[derive(Clone, Copy, Debug, PartialEq, Eq, Structural)]
pub enum SourceFormat {
    Alpha,
}

/// The notation that `name` names: `alpha` or `ALPHA` the one there is.
pub open spec fn format_named(name: Seq<char>) -> Option<SourceFormat> {
    if name == "alpha"@ || name == "ALPHA"@ {
        Some(SourceFormat::Alpha)
    } else {
        None
    }
}

/// Tells whether `text` is the same text as `word`.
fn same_text(text: &str, word: &str) -> (b: bool)
    ensures
        b == (text@ == word@),
{
    let n = text.unicode_len();
    if n != word.unicode_len() {
        return false;
    }
    let mut i: usize = 0;
    while i < n
        invariant
            i <= n,
            n == text@.len(),
            n == word@.len(),
            forall|k: int| 0 <= k < i ==> text@[k] == word@[k],
        decreases n - i,
    {
        if text.get_char(i) != word.get_char(i) {
            return false;
        }
        i += 1;
    }
    assert(text@ =~= word@);
    true
}

impl SourceFormat {
    /// The notation that `name` names, if it names one.
    pub fn from_name(name: &str) -> (r: Option<SourceFormat>)
        ensures
            r == format_named(name@),
    {
        if same_text(name, "alpha") || same_text(name, "ALPHA") {
            Some(SourceFormat::Alpha)
        } else {
            None
        }
    }
}

/// Checks that `s` names a notation; if it does not, says so in words.
pub fn validate_input_format_spec(s: String) -> (r: Result<(), String>)
    ensures
        match r {
            Ok(_) => format_named(s@) is Some,
            Err(msg) => format_named(s@) is None && msg@ == "unknown format: "@ + s@,
        },
{
    match SourceFormat::from_name(s.as_str()) {
        Some(_) => Ok(()),
        None => {
            let mut msg = String::from_str("unknown format: ");
            msg.append(s.as_str());
            Err(msg)
        },
    }
}

/// The version of the calendar format that exported records follow.
pub const CALENDAR_VERSION: &'static str = "2.0";

/// What an exported calendar names as its producer.
pub const CALENDAR_PRODUCER: &'static str = "alpha";

/// When daylight saving time was first observed in the time zone of the
/// diary.
pub const DAYLIGHT_START: &'static str = "19671025T040000";

/// The offset from UTC before daylight saving time begins.
pub const OFFSET_BEFORE: &'static str = "+0200";

/// The offset from UTC while daylight saving time is observed.
pub const OFFSET_AFTER: &'static str = "+0300";

/// The year in which dates are taken after `line`, if they were taken in
/// `year` before it: a line that is nothing but a number sets the year.
pub open spec fn year_after_line(line: Seq<char>, year: int) -> int {
    match i32_of(line) {
        Some(stated) => stated as int,
        None => year,
    }
}

/// The year in which dates are taken after all of `lines`.
pub open spec fn year_after(lines: Seq<Seq<char>>, year: int) -> int
    decreases lines.len(),
{
    if lines.len() == 0 {
        year
    } else {
        year_after_line(lines.last(), year_after(lines.drop_last(), year))
    }
}

/// The entry that `line` adds to a diary in which dates are now taken in
/// `year`: none if the line states a year or is not an entry.
pub open spec fn entry_in(line: Seq<char>, year: int) -> Option<EntryView> {
    if i32_of(line) is Some {
        None
    } else {
        match line_reading(line, year) {
            Ok(entry) => Some(entry),
            Err(_) => None,
        }
    }
}

/// The entries of a diary, in order: each line is read in the year that
/// the lines before it leave.
pub open spec fn entries_of(lines: Seq<Seq<char>>, year: int) -> Seq<EntryView>
    decreases lines.len(),
{
    if lines.len() == 0 {
        Seq::empty()
    } else {
        let before = entries_of(lines.drop_last(), year);
        match entry_in(lines.last(), year_after(lines.drop_last(), year)) {
            Some(entry) => before.push(entry),
            None => before,
        }
    }
}

/// Whether the tags mark an entry for the exported calendar.
pub open spec fn is_published(tags: Seq<Tag>) -> bool {
    tags.contains(Tag::PublishToIcs)
}

/// The entries among `entries` that are marked for the exported calendar.
pub open spec fn published(entries: Seq<EntryView>) -> Seq<EntryView>
    decreases entries.len(),
{
    if entries.len() == 0 {
        Seq::empty()
    } else {
        let before = published(entries.drop_last());
        if is_published(entries.last().tags) {
            before.push(entries.last())
        } else {
            before
        }
    }
}

/// The entries that count: all of them, or only the published ones.
pub open spec fn chosen(entries: Seq<EntryView>, published_only: bool) -> Seq<EntryView> {
    if published_only {
        published(entries)
    } else {
        entries
    }
}

/// What the views of a sequence of entries are.
pub open spec fn entry_views(entries: Seq<Entry>) -> Seq<EntryView> {
    Seq::new(entries.len(), |i: int| entries[i]@)
}

/// Whether `event` is `entry` with its date placed in the time zone of the
/// diary.
pub open spec fn tells(event: Event, entry: EntryView) -> bool {
    &&& is_placed(entry.date, event.date)
    &&& event.tags@ == entry.tags
    &&& event.description@ == entry.description
}

/// Whether `events` are `entries` placed in the time zone of the diary, in
/// order. An entry is missing among the events if the zone does not have
/// what it writes. Otherwise it is there, unless it writes a wall-clock
/// time in the first or the last of the supported years, in which case it
/// may be missing.
pub open spec fn placed_from(entries: Seq<EntryView>, events: Seq<Event>) -> bool
    decreases entries.len(),
{
    if entries.len() == 0 {
        events.len() == 0
    } else {
        ||| {
            &&& events.len() > 0
            &&& tells(events.last(), entries.last())
            &&& placed_from(entries.drop_last(), events.drop_last())
        }
        ||| {
            &&& !(has_place(entries.last().date) && is_inside(entries.last().date))
            &&& placed_from(entries.drop_last(), events)
        }
    }
}

/// Where the zone has what every entry writes, and no entry writes a
/// wall-clock time in the first or the last of the supported years, there
/// is one event for each entry, and it tells what the entry writes.
pub proof fn law_owed_entries_are_events(entries: Seq<EntryView>, events: Seq<Event>)
    requires
        placed_from(entries, events),
        forall|i: int|
            0 <= i < entries.len() ==> has_place(#[trigger] entries[i].date) && is_inside(
                entries[i].date,
            ),
    ensures
        events.len() == entries.len(),
        forall|i: int| 0 <= i < entries.len() ==> tells(#[trigger] events[i], entries[i]),
    decreases entries.len(),
{
    if entries.len() > 0 {
        assert(has_place(entries.last().date) && is_inside(entries.last().date));
        assert forall|i: int| 0 <= i < entries.drop_last().len() implies has_place(
            #[trigger] entries.drop_last()[i].date,
        ) && is_inside(entries.drop_last()[i].date) by {
            assert(entries.drop_last()[i] == entries[i]);
        }
        law_owed_entries_are_events(entries.drop_last(), events.drop_last());
        assert forall|i: int| 0 <= i < entries.len() implies tells(
            #[trigger] events[i],
            entries[i],
        ) by {
            if i < entries.len() - 1 {
                assert(events.drop_last()[i] == events[i]);
                assert(entries.drop_last()[i] == entries[i]);
            }
        }
    }
}

/// Tells whether `tags` holds `tag`.
pub fn has_tag(tags: &Vec<Tag>, tag: Tag) -> (b: bool)
    ensures
        b == tags@.contains(tag),
{
    let mut i: usize = 0;
    while i < tags.len()
        invariant
            i <= tags.len(),
            forall|k: int| 0 <= k < i ==> tags@[k] != tag,
        decreases tags.len() - i,
    {
        if tags[i] == tag {
            return true;
        }
        i += 1;
    }
    false
}

/// Reads a diary into its entries as they are written, and tells the year
/// in which dates are taken at its end.
pub fn read_entries(source: &str, year: i32) -> (r: (Vec<Entry>, i32))
    ensures
        entry_views(r.0@) == entries_of(split(source@, '\n'), year as int),
        r.1 == year_after(split(source@, '\n'), year as int),
{
    let text = chars_of(source);
    let lines = split_on(&text, '\n');
    let ghost all = split(source@, '\n');
    let mut entries: Vec<Entry> = Vec::new();
    let mut current = year;
    let mut i: usize = 0;
    assert(views(lines@).len() == lines@.len());
    assert(all.take(0) == Seq::<Seq<char>>::empty());
    assert(entry_views(entries@) == Seq::<EntryView>::empty());
    while i < lines.len()
        invariant
            i <= lines.len(),
            all == views(lines@),
            all.len() == lines@.len(),
            entry_views(entries@) == entries_of(all.take(i as int), year as int),
            current == year_after(all.take(i as int), year as int),
        decreases lines.len() - i,
    {
        let line = &lines[i];
        proof {
            let upto = all.take(i + 1);
            assert(upto.drop_last() == all.take(i as int));
            assert(upto.last() == line@);
        }
        match parse_i32(line) {
            Some(stated) => {
                current = stated;
            },
            None => match read_entry(line, current) {
                Ok(entry) => {
                    assert(entry_views(entries@.push(entry)) == entry_views(entries@).push(
                        entry@,
                    ));
                    entries.push(entry);
                },
                Err(_) => {},
            },
        }
        i += 1;
    }
    assert(all.take(all.len() as int) == all);
    (entries, current)
}

/// Places entries in the time zone of the diary: all of them, or only
/// those marked for the exported calendar.
pub fn place_entries(entries: Vec<Entry>, published_only: bool) -> (events: Vec<Event>)
    ensures
        placed_from(chosen(entry_views(entries@), published_only), events@),
{
    broadcast use vstd::std_specs::vec::group_vec_axioms;

    let ghost given = entries@;
    let ghost all = entry_views(given);
    let mut events: Vec<Event> = Vec::new();
    assert(all.take(0) == Seq::<EntryView>::empty());
    for entry in it: entries
        invariant
            it.seq() == given,
            all == entry_views(given),
            placed_from(chosen(all.take(it.index() as int), published_only), events@),
    {
        let ghost before = all.take(it.index() as int);
        let ghost written = entry@;
        proof {
            let upto = all.take(it.index() + 1);
            assert(upto.drop_last() == before);
            assert(upto.last() == written);
            assert(upto == before.push(written));
            if is_published(written.tags) {
                assert(published(before).push(written).drop_last() == published(before));
            }
        }
        if !published_only || has_tag(&entry.tags, Tag::PublishToIcs) {
            let ghost wanted = chosen(before, published_only);
            assert(chosen(before.push(written), published_only) == wanted.push(written));
            assert(wanted.push(written).drop_last() == wanted);
            let date = entry.date.in_zone();
            match Event::of_entry(entry, date) {
                Some(event) => {
                    assert(events@.push(event).drop_last() == events@);
                    events.push(event);
                },
                None => {},
            }
        }
    }
    assert(all.take(all.len() as int) == all);
    events
}

/// Reads a diary into events: every entry, or only those marked for the
/// exported calendar, each with its date placed in the time zone of the
/// diary. Lines that are not entries are passed over.
pub fn read_events(source: &str, year: i32, published_only: bool) -> (events: Vec<Event>)
    ensures
        placed_from(
            chosen(entries_of(split(source@, '\n'), year as int), published_only),
            events@,
        ),
{
    let (entries, _) = read_entries(source, year);
    place_entries(entries, published_only)
}

/// Reads a diary written in `format` into all of its events, dates being
/// taken in `year` until a line states another.
pub fn parse(format: SourceFormat, year: i32, source: &str) -> (events: Vec<Event>)
    ensures
        placed_from(entries_of(split(source@, '\n'), year as int), events@),
{
    match format {
        SourceFormat::Alpha => read_events(source, year, false),
    }
}

/// The declaration of the time zone of the diary in a calendar file: its
/// name, and when daylight saving time began there.
pub open spec fn zone_part() -> Part {
    Part {
        name: "VTIMEZONE"@,
        properties: seq![("TZID"@, ZONE@)],
        parts: seq![
            Part {
                name: "DAYLIGHT"@,
                properties: seq![
                    ("DTSTART"@, DAYLIGHT_START@),
                    ("TZOFFSETFROM"@, OFFSET_BEFORE@),
                    ("TZOFFSETTO"@, OFFSET_AFTER@),
                ],
                parts: Seq::empty(),
            },
        ],
    }
}

/// What `calendar` holds, as `ics` keeps and writes it.
pub uninterp spec fn calendar_view(calendar: ics::ICalendar<'static>) -> Part;

/// `ics::ICalendar`: a calendar file in the making.
#[verifier::external_type_specification]
#[verifier::external_body]
pub struct ExICalendar<'a>(ics::ICalendar<'a>);

/// Whether `parts` are the records of `events`, one for each in order.
pub open spec fn records_of(parts: Seq<Part>, events: Seq<Event>) -> bool {
    &&& parts.len() == events.len()
    &&& forall|i: int|
        0 <= i < parts.len() ==> is_record_part(
            #[trigger] parts[i],
            events[i].date,
            events[i].description@,
        )
}

/// Whether `calendar` is the calendar file of `events`: a part named
/// `VCALENDAR` with the version and the producer as its properties, which
/// holds the declaration of the time zone and then the records of the
/// events.
pub open spec fn is_calendar_of(calendar: Part, events: Seq<Event>) -> bool {
    &&& calendar.name == "VCALENDAR"@
    &&& calendar.properties == seq![
        ("VERSION"@, CALENDAR_VERSION@),
        ("PRODID"@, CALENDAR_PRODUCER@),
    ]
    &&& calendar.parts.len() == events.len() + 1
    &&& calendar.parts[0] == zone_part()
    &&& records_of(calendar.parts.skip(1), events)
}

/// Makes the calendar file of `events`, or reports the first event that
/// has no record.
pub fn export(events: &Vec<Event>) -> (r: Result<ics::ICalendar<'static>, ExportError>)
    ensures
        match r {
            Ok(calendar) => is_calendar_of(calendar_view(calendar), events@),
            Err(error) => exists|i: int|
                0 <= i < events.len() && #[trigger] dated_properties(
                    events[i].date,
                    events[i].description@,
                ) == Err::<Seq<(Seq<char>, Seq<char>)>, ExportError>(error),
        },
{
    let mut calendar = new_calendar(CALENDAR_VERSION, CALENDAR_PRODUCER);
    add_part(&mut calendar, new_zone(ZONE, DAYLIGHT_START, OFFSET_BEFORE, OFFSET_AFTER));
    assert(calendar_view(calendar).parts.skip(1) == Seq::<Part>::empty());
    let mut i: usize = 0;
    while i < events.len()
        invariant
            i <= events.len(),
            is_calendar_of(calendar_view(calendar), events@.take(i as int)),
        decreases events.len() - i,
    {
        let ghost before = calendar_view(calendar).parts;
        match events[i].create_ics_event() {
            Ok(record) => {
                add_part(&mut calendar, record);
                proof {
                    let after = calendar_view(calendar).parts;
                    assert(after.skip(1) == before.skip(1).push(component_view(record)));
                    assert(events@.take(i + 1) == events@.take(i as int).push(events@[i as int]));
                }
            },
            Err(error) => {
                assert(dated_properties(events[i as int].date, events[i as int].description@)
                    == Err::<Seq<(Seq<char>, Seq<char>)>, ExportError>(error));
                return Err(error);
            },
        }
        i += 1;
    }
    assert(events@.take(events.len() as int) == events@);
    Ok(calendar)
}

/// Turns a diary written in `format` into a calendar file: the declaration
/// of the time zone of the diary, and one record for each entry that is
/// marked for the calendar, in order. Dates are taken in `year` until a
/// line states another.
pub fn save_as_ics(format: SourceFormat, year: i32, source: &str) -> (r: Result<
    ics::ICalendar<'static>,
    ExportError,
>)
    ensures
        r matches Ok(calendar) && exists|events: Seq<Event>|
            placed_from(published(entries_of(split(source@, '\n'), year as int)), events)
                && #[trigger] is_calendar_of(calendar_view(calendar), events),
{
    match format {
        SourceFormat::Alpha => {
            let events = read_events(source, year, true);
            let r = export(&events);
            proof {
                lemma_placed_have_records(
                    published(entries_of(split(source@, '\n'), year as int)),
                    events@,
                );
            }
            r
        },
    }
}

/// `ics::ICalendar::new`: a calendar named `VCALENDAR` that holds the two
/// properties `VERSION` and `PRODID` with the given values, and no parts.
#[verifier::external_body]
fn new_calendar(version: &'static str, producer: &'static str) -> (calendar: ics::ICalendar<
    'static,
>)
    ensures
        calendar_view(calendar) == (Part {
            name: "VCALENDAR"@,
            properties: seq![("VERSION"@, version@), ("PRODID"@, producer@)],
            parts: Seq::empty(),
        }),
{
    ics::ICalendar::new(version, producer)
}

/// `ics::TimeZone::daylight` of an `ics::Daylight::new`, turned into the
/// component that a calendar holds for it: a part named `VTIMEZONE` with
/// the property `TZID`, and inside it one part named `DAYLIGHT` with the
/// properties `DTSTART`, `TZOFFSETFROM` and `TZOFFSETTO`.
#[verifier::external_body]
fn new_zone(
    zone: &'static str,
    start: &'static str,
    before: &'static str,
    after: &'static str,
) -> (declared: ics::components::Component<'static>)
    ensures
        component_view(declared) == (Part {
            name: "VTIMEZONE"@,
            properties: seq![("TZID"@, zone@)],
            parts: seq![
                Part {
                    name: "DAYLIGHT"@,
                    properties: seq![
                        ("DTSTART"@, start@),
                        ("TZOFFSETFROM"@, before@),
                        ("TZOFFSETTO"@, after@),
                    ],
                    parts: Seq::empty(),
                },
            ],
        }),
{
    ics::TimeZone::daylight(zone, ics::Daylight::new(start, before, after)).into()
}

/// `ics::ICalendar::add_component`: the component is added behind the
/// parts that the calendar holds, and nothing else changes.
#[verifier::external_body]
fn add_part(calendar: &mut ics::ICalendar<'static>, part: ics::components::Component<'static>)
    ensures
        calendar_view(*final(calendar)) == (Part {
            name: calendar_view(*old(calendar)).name,
            properties: calendar_view(*old(calendar)).properties,
            parts: calendar_view(*old(calendar)).parts.push(component_view(part)),
        }),
{
    calendar.add_component(part)
}

/// Events that were read from a diary can all be exported.
pub proof fn lemma_placed_have_records(entries: Seq<EntryView>, events: Seq<Event>)
    requires
        placed_from(entries, events),
    ensures
        forall|i: int|
            0 <= i < events.len() ==> (#[trigger] dated_properties(
                events[i].date,
                events[i].description@,
            )) is Ok,
    decreases entries.len(),
{
    if entries.len() > 0 {
        if events.len() > 0 && tells(events.last(), entries.last()) && placed_from(
            entries.drop_last(),
            events.drop_last(),
        ) {
            lemma_placed_have_records(entries.drop_last(), events.drop_last());
            assert forall|i: int| 0 <= i < events.len() implies (#[trigger] dated_properties(
                events[i].date,
                events[i].description@,
            )) is Ok by {
                if i < events.len() - 1 {
                    assert(events.drop_last()[i] == events[i]);
                }
            }
        } else {
            lemma_placed_have_records(entries.drop_last(), events);
        }
    }
}

/// A number has no white space in it.
pub proof fn lemma_number_is_unbroken(line: Seq<char>)
    requires
        i32_of(line) is Some,
    ensures
        forall|i: int| 0 <= i < line.len() ==> !is_blank(line[i]),
{
    let digits = if line.len() > 0 && (line[0] == '-' || line[0] == '+') {
        line.skip(1)
    } else {
        line
    };
    assert(all_digits(digits));
    assert forall|i: int| 0 <= i < line.len() implies !is_blank(line[i]) by {
        if line[0] == '-' || line[0] == '+' {
            if i > 0 {
                assert(is_digit(digits[i - 1]));
            }
        } else {
            assert(is_digit(digits[i]));
        }
    }
}

/// A line that is nothing but a number is no entry, whatever the year, and
/// sets the year in which the following lines are read.
pub proof fn law_number_sets_the_year(line: Seq<char>, year: int)
    requires
        i32_of(line) is Some,
    ensures
        entry_in(line, year) is None,
        line_reading(line, year) == Err::<EntryView, Reason>(Reason::TooFewTokens),
        year_after_line(line, year) == i32_of(line)->0,
{
    lemma_number_is_unbroken(line);
    lemma_unbroken_is_one_word(line);
}

/// Reading a diary goes from front to back: what is read from its first
/// lines does not depend on the lines behind them, and these are read in
/// the year that the first lines leave.
pub proof fn law_reading_goes_forward(first: Seq<Seq<char>>, rest: Seq<Seq<char>>, year: int)
    ensures
        year_after(first + rest, year) == year_after(rest, year_after(first, year)),
        entries_of(first + rest, year) == entries_of(first, year) + entries_of(
            rest,
            year_after(first, year),
        ),
    decreases rest.len(),
{
    if rest.len() == 0 {
        assert(first + rest == first);
        assert(entries_of(first, year) + Seq::<EntryView>::empty() == entries_of(first, year));
    } else {
        let all = first + rest;
        assert(all.drop_last() == first + rest.drop_last());
        assert(all.last() == rest.last());
        law_reading_goes_forward(first, rest.drop_last(), year);
        let then = year_after(first, year);
        let before = entries_of(first, year) + entries_of(rest.drop_last(), then);
        match entry_in(rest.last(), year_after(rest.drop_last(), then)) {
            Some(entry) => {
                assert(before.push(entry) == entries_of(first, year) + entries_of(
                    rest.drop_last(),
                    then,
                ).push(entry));
            },
            None => {},
        }
    }
}

/// A year that a line states changes nothing of what was read before it:
/// the entries of the lines up to it are the first of the entries of the
/// whole diary.
pub proof fn law_earlier_entries_stay(lines: Seq<Seq<char>>, upto: int, year: int)
    requires
        0 <= upto <= lines.len(),
    ensures
        entries_of(lines.take(upto), year).len() <= entries_of(lines, year).len(),
        entries_of(lines, year).take(entries_of(lines.take(upto), year).len() as int)
            == entries_of(lines.take(upto), year),
{
    assert(lines.take(upto) + lines.skip(upto) == lines);
    law_reading_goes_forward(lines.take(upto), lines.skip(upto), year);
    let head = entries_of(lines.take(upto), year);
    let tail = entries_of(lines.skip(upto), year_after(lines.take(upto), year));
    assert((head + tail).take(head.len() as int) == head);
}

} // verus!
