use memoparsa::civil::CalendarDate;
use memoparsa::civil::ClockTime;
use memoparsa::civil::WallTime;
use memoparsa::format::calendar::line_type;
use memoparsa::format::calendar::parse_calendar;
use memoparsa::format::calendar::read_calendar;
use memoparsa::format::calendar::read_headline;
use memoparsa::format::calendar::read_line;
use memoparsa::format::calendar::Context;
use memoparsa::format::calendar::LineType;
use memoparsa::format::calendar::Note;
use memoparsa::format::DateVariant;
use memoparsa::format::NaiveVariant;
use memoparsa::text::chars_of;
use memoparsa::text::split_words;
use memoparsa::zone::Moment;
use memoparsa::zone::ZONE;

const CALENDAR: &str = "# Week 34

### pe 23.08
* 9:00-10:30 standup and planning
- 12:15 lunch with Saskia
* later maybe a walk

* 18:00 nothing, the day is over

### la 24.08 (weekend)
- 1000-1200 sauna
notes without a bullet
###
### su 31.09 25.08 and 99.99
* 2359 bed time
";

fn date(year: i32, month: u32, day: u32) -> CalendarDate {
    CalendarDate::from_ymd(year, month, day).unwrap()
}

fn wall(year: i32, month: u32, day: u32, hour: u32, minute: u32) -> WallTime {
    date(year, month, day).at(ClockTime::from_hm(hour, minute).unwrap())
}

fn note(date: NaiveVariant, description: &str) -> Note {
    Note { date, description: description.to_owned() }
}

#[test]
fn calendar_parses_correct() {
    let entries = parse_calendar(CALENDAR, date(2019, 8, 23));
    assert_eq!(entries.len(), 4);
    for entry in entries {
        println!("DOM Event: {:?}", entry);
    }
}

#[test]
fn a_calendar_is_read_day_by_day() {
    let notes = read_calendar(CALENDAR, date(2019, 8, 22));
    assert_eq!(
        notes,
        vec![
            note(
                NaiveVariant::TimeSpan(wall(2019, 8, 23, 9, 0), wall(2019, 8, 23, 10, 30)),
                "standup and planning"
            ),
            note(NaiveVariant::DateTime(wall(2019, 8, 23, 12, 15)), "lunch with Saskia"),
            note(
                NaiveVariant::TimeSpan(wall(2019, 8, 24, 10, 0), wall(2019, 8, 24, 12, 0)),
                "sauna"
            ),
            note(NaiveVariant::DateTime(wall(2019, 8, 25, 23, 59)), "bed time"),
        ]
    );
    let events = parse_calendar(CALENDAR, date(2019, 8, 22));
    assert_eq!(events.len(), 4);
    assert_eq!(events[1].description, "lunch with Saskia");
    assert_eq!(
        events[1].date,
        DateVariant::DateTime(Moment::in_zone(ZONE, wall(2019, 8, 23, 12, 15)).unwrap())
    );
    assert_eq!(
        events[0].date,
        DateVariant::TimeSpan(
            Moment::in_zone(ZONE, wall(2019, 8, 23, 9, 0)).unwrap(),
            Moment::in_zone(ZONE, wall(2019, 8, 23, 10, 30)).unwrap()
        )
    );
}

#[test]
fn the_first_lines_are_of_the_day_that_is_given() {
    let notes = read_calendar("* 8:00 first\n\n* 9:00 lost", date(2019, 8, 23));
    assert_eq!(notes, vec![note(NaiveVariant::DateTime(wall(2019, 8, 23, 8, 0)), "first")]);
    assert!(read_calendar("", date(2019, 8, 23)).is_empty());
    assert!(read_calendar("\n* 8:00 lost", date(2019, 8, 23)).is_empty());
    // the year stays behind an empty line
    let notes = read_calendar("\n### 1.2\n* 8:00 found", date(2019, 8, 23));
    assert_eq!(notes, vec![note(NaiveVariant::DateTime(wall(2019, 2, 1, 8, 0)), "found")]);
    let notes = read_calendar("* 8:00\n* 8:00 \n* 8:00 x", date(2019, 8, 23));
    assert_eq!(
        notes,
        vec![
            note(NaiveVariant::DateTime(wall(2019, 8, 23, 8, 0)), ""),
            note(NaiveVariant::DateTime(wall(2019, 8, 23, 8, 0)), ""),
            note(NaiveVariant::DateTime(wall(2019, 8, 23, 8, 0)), "x"),
        ]
    );
}

#[test]
fn a_time_that_the_zone_skipped_is_no_event() {
    let source = "### 31.03\n* 3:30 skipped\n* 4:30 kept\n* 2:00-3:00 half skipped";
    assert_eq!(read_calendar(source, date(2019, 1, 1)).len(), 3);
    let events = parse_calendar(source, date(2019, 1, 1));
    assert_eq!(events.len(), 1);
    assert_eq!(events[0].description, "kept");
}

#[test]
fn lines_are_told_apart_by_their_first_word() {
    assert_eq!(line_type(&chars_of("###")), Some(LineType::Date));
    assert_eq!(line_type(&chars_of("*")), Some(LineType::Event));
    assert_eq!(line_type(&chars_of("-")), Some(LineType::Event));
    for word in ["", "#", "##", "####", "**", "--", "+", "###x", "a", "–"] {
        assert_eq!(line_type(&chars_of(word)), None, "{:?}", word);
    }
}

#[test]
fn a_headline_sets_the_last_day_that_it_writes() {
    let tokens = split_words(&chars_of("### 23.08 to 24.08 or so 31.02"));
    assert_eq!(read_headline(&tokens, 1, 2019), Some(date(2019, 8, 24)));
    assert_eq!(read_headline(&tokens, 4, 2019), None);
    assert_eq!(read_headline(&tokens, 7, 2019), None);
    assert_eq!(read_headline(&tokens, 1, 300000), None);
}

#[test]
fn one_line_changes_what_is_known() {
    let day = date(2019, 8, 23);
    let mut notes = Vec::new();
    assert_eq!(read_line(&chars_of(""), Context::Date(day), &mut notes), Context::Year(2019));
    assert_eq!(read_line(&chars_of("   "), Context::Year(7), &mut notes), Context::Year(7));
    assert_eq!(read_line(&chars_of("###"), Context::Date(day), &mut notes), Context::Date(day));
    assert_eq!(read_line(&chars_of("word"), Context::Date(day), &mut notes), Context::Date(day));
    assert_eq!(
        read_line(&chars_of("### 1.1"), Context::Date(day), &mut notes),
        Context::Date(date(2019, 1, 1))
    );
    assert_eq!(
        read_line(&chars_of("### 1.1"), Context::Year(2020), &mut notes),
        Context::Date(date(2020, 1, 1))
    );
    assert_eq!(read_line(&chars_of("### soon"), Context::Year(2020), &mut notes), Context::Year(2020));
    assert_eq!(read_line(&chars_of("+ 8:00 x"), Context::Date(day), &mut notes), Context::Date(day));
    assert_eq!(read_line(&chars_of("* 8:00 x"), Context::Year(2019), &mut notes), Context::Year(2019));
    assert_eq!(read_line(&chars_of("* soon x"), Context::Date(day), &mut notes), Context::Date(day));
    assert!(notes.is_empty());
    assert_eq!(read_line(&chars_of("* 8:00 x y"), Context::Date(day), &mut notes), Context::Date(day));
    assert_eq!(notes, vec![note(NaiveVariant::DateTime(wall(2019, 8, 23, 8, 0)), "x y")]);
}
