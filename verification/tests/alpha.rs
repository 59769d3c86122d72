use chrono::Datelike;
use chrono::TimeZone;
use chrono::Timelike;
use memoparsa::civil::CalendarDate;
use memoparsa::civil::ClockTime;
use memoparsa::civil::WallTime;
use memoparsa::format::alpha::settle;
use memoparsa::format::alpha::read_datespan;
use memoparsa::format::alpha::read_tags;
use memoparsa::format::alpha::take_tags;
use memoparsa::format::alpha::weekday_label;
use memoparsa::format::alpha::Entry;
use memoparsa::format::alpha::Event;
use memoparsa::format::alpha::Reason;
use memoparsa::format::alpha::Tag;
use memoparsa::format::DateVariant;
use memoparsa::format::NaiveVariant;
use memoparsa::format::Reading;
use memoparsa::text::chars_of;
use memoparsa::text::split_words;
use memoparsa::zone::Moment;

const ALPHA: &str = "2019
    25.04          p    diplomityö Janille viimeistä kommentointia varten
22.-27.10  # Rankka
ma  25.04    23:59      [](PRML kirjan laina-aika päättyy)
\t25.-28.7\t\t\tSaskia's Music Festival in late July
   03.09 12:40-13:20 p suuhygienisti Janni Sirola (@Hervanta)

just some words without a date
2020
to 02.01 p 9:15 loppiaisen suunnittelu
";

fn date(year: i32, month: u32, day: u32) -> CalendarDate {
    CalendarDate::from_ymd(year, month, day).unwrap()
}

fn time(hour: u32, minute: u32) -> ClockTime {
    ClockTime::from_hm(hour, minute).unwrap()
}

fn wall(year: i32, month: u32, day: u32, hour: u32, minute: u32) -> WallTime {
    date(year, month, day).at(time(hour, minute))
}

/// The moment that chrono makes of a wall-clock time in Helsinki.
fn helsinki(year: i32, month: u32, day: u32, hour: u32, minute: u32) -> Moment {
    let there = chrono_tz::Europe::Helsinki
        .with_ymd_and_hms(year, month, day, hour, minute, 0)
        .unwrap();
    let here = there.with_timezone(&chrono::Local);
    let local = WallTime::from_parts(
        date(here.year(), here.month(), here.day()),
        here.hour(),
        here.minute(),
        here.second(),
    )
    .unwrap();
    Moment::from_parts(there.timestamp(), local)
}

#[test]
fn example_events_parse_correct() {
    assert_eq!(
        Event::from_str(
            "    25.04          p    diplomityö Janille viimeistä kommentointia varten",
            2019
        )
        .unwrap(),
        Event {
            date: DateVariant::Date(date(2019, 4, 25)),
            tags: vec![Tag::PublishToIcs],
            description: "diplomityö Janille viimeistä kommentointia varten".to_owned(),
        }
    );
    assert_eq!(
        Event::from_str("22.-27.10  # Rankka", 2019).unwrap(),
        Event {
            date: DateVariant::TimeSpan(
                helsinki(2019, 10, 22, 6, 0),
                helsinki(2019, 10, 27, 23, 59)
            ),
            tags: vec![Tag::Acknowledge],
            description: "Rankka".to_owned(),
        }
    );
    assert_eq!(
        Event::from_str("ma  25.04    23:59      [](PRML kirjan laina-aika päättyy)", 2019)
            .unwrap(),
        Event {
            date: DateVariant::DateTime(helsinki(2019, 4, 25, 23, 59)),
            tags: vec![],
            description: "[](PRML kirjan laina-aika päättyy)".to_owned(),
        }
    );
    assert_eq!(
        Event::from_str("\t25.-28.7\t\t\tSaskia's Music Festival in late July", 2019).unwrap(),
        Event {
            date: DateVariant::TimeSpan(
                helsinki(2019, 7, 25, 6, 0),
                helsinki(2019, 7, 28, 23, 59)
            ),
            tags: vec![],
            description: "Saskia's Music Festival in late July".to_owned(),
        }
    );
    assert_eq!(
        Event::from_str("   03.09 12:40-13:20 p suuhygienisti Janni Sirola (@Hervanta)", 2019)
            .unwrap(),
        Event {
            date: DateVariant::TimeSpan(
                helsinki(2019, 9, 3, 12, 40),
                helsinki(2019, 9, 3, 13, 20)
            ),
            tags: vec![Tag::PublishToIcs],
            description: "suuhygienisti Janni Sirola (@Hervanta)".to_owned(),
        }
    );
}

#[test]
fn mod_alpha_parses_correct() {
    let lines = ALPHA.split('\n');
    let entries = lines.filter_map(|line| Event::from_str(line, 2019).ok());
    let mut count = 0;
    for entry in entries {
        println!("DOM Event: {:?}", entry);
        count += 1;
    }
    assert_eq!(count, 6);
}

#[test]
fn whole_day_entry_with_a_tag() {
    let entry = Entry::from_str("    25.04          p    some description", 2019).unwrap();
    assert_eq!(entry.date, NaiveVariant::Date(date(2019, 4, 25)));
    assert_eq!(entry.tags, vec![Tag::PublishToIcs]);
    assert_eq!(entry.description, "some description");
    let event = Event::from_str("    25.04          p    some description", 2019).unwrap();
    assert_eq!(event.date, DateVariant::Date(date(2019, 4, 25)));
    assert_eq!(event.tags, vec![Tag::PublishToIcs]);
    assert_eq!(event.description, "some description");
}

#[test]
fn span_of_days_with_default_times() {
    let entry = Entry::from_str("22.-27.10  # Rankka", 2019).unwrap();
    assert_eq!(
        entry.date,
        NaiveVariant::TimeSpan(wall(2019, 10, 22, 6, 0), wall(2019, 10, 27, 23, 59))
    );
    assert_eq!(entry.tags, vec![Tag::Acknowledge]);
    assert_eq!(entry.description, "Rankka");
    let event = Event::from_str("22.-27.10  # Rankka", 2019).unwrap();
    match event.date {
        DateVariant::TimeSpan(start, end) => {
            // 06:00 and 23:59 in Helsinki, in summer time and in winter time
            assert_eq!(start.seconds(), 1571713200);
            assert_eq!(end.seconds(), 1572213540);
        }
        other => panic!("not a span: {:?}", other),
    }
}

#[test]
fn span_of_times_within_a_day() {
    let line = "03.09 12:40-13:20 p suuhygienisti Janni Sirola (@Hervanta)";
    let entry = Entry::from_str(line, 2019).unwrap();
    assert_eq!(
        entry.date,
        NaiveVariant::TimeSpan(wall(2019, 9, 3, 12, 40), wall(2019, 9, 3, 13, 20))
    );
    assert_eq!(entry.tags, vec![Tag::PublishToIcs]);
    assert_eq!(entry.description, "suuhygienisti Janni Sirola (@Hervanta)");
    let event = Event::from_str(line, 2019).unwrap();
    assert_eq!(
        event.date,
        DateVariant::TimeSpan(helsinki(2019, 9, 3, 12, 40), helsinki(2019, 9, 3, 13, 20))
    );
    assert_eq!(event.tags, vec![Tag::PublishToIcs]);
    assert_eq!(event.description, "suuhygienisti Janni Sirola (@Hervanta)");
}

#[test]
fn an_entry_may_be_a_date_and_a_time_and_nothing_else() {
    let entry = Entry::from_str("25.04 12:00", 2019).unwrap();
    assert_eq!(entry.date, NaiveVariant::DateTime(wall(2019, 4, 25, 12, 0)));
    assert_eq!(entry.tags, vec![]);
    assert_eq!(entry.description, "");
    assert_eq!(
        Event::from_str("25.04 12:00", 2019).unwrap(),
        Event {
            date: DateVariant::DateTime(helsinki(2019, 4, 25, 12, 0)),
            tags: vec![],
            description: "".to_owned(),
        }
    );
    let entry = Entry::from_str("25.04 12:00-13:00", 2019).unwrap();
    assert_eq!(
        entry.date,
        NaiveVariant::TimeSpan(wall(2019, 4, 25, 12, 0), wall(2019, 4, 25, 13, 0))
    );
    assert_eq!(entry.tags, vec![]);
    assert_eq!(entry.description, "");
    let entry = Entry::from_str("22.-27.10 12:00", 2019).unwrap();
    assert_eq!(
        entry.date,
        NaiveVariant::TimeSpan(wall(2019, 10, 22, 12, 0), wall(2019, 10, 27, 23, 59))
    );
    assert_eq!(entry.tags, vec![]);
    assert_eq!(entry.description, "");
    let entry = Entry::from_str("ma 25.04", 2019).unwrap();
    assert_eq!(entry.date, NaiveVariant::Date(date(2019, 4, 25)));
    assert_eq!(entry.tags, vec![]);
    assert_eq!(entry.description, "");
    let entry = Entry::from_str("la 22.-27.10", 2019).unwrap();
    assert_eq!(
        entry.date,
        NaiveVariant::TimeSpan(wall(2019, 10, 22, 6, 0), wall(2019, 10, 27, 23, 59))
    );
    let entry = Entry::from_str("su 25.04 1200", 2019).unwrap();
    assert_eq!(entry.date, NaiveVariant::DateTime(wall(2019, 4, 25, 12, 0)));
    assert_eq!(entry.description, "");
}

#[test]
fn an_entry_may_be_tags_and_nothing_else() {
    let entry = Entry::from_str("25.04 p", 2019).unwrap();
    assert_eq!(entry.date, NaiveVariant::Date(date(2019, 4, 25)));
    assert_eq!(entry.tags, vec![Tag::PublishToIcs]);
    assert_eq!(entry.description, "");
    let entry = Entry::from_str("25.04 12:00 #", 2019).unwrap();
    assert_eq!(entry.date, NaiveVariant::DateTime(wall(2019, 4, 25, 12, 0)));
    assert_eq!(entry.tags, vec![Tag::Acknowledge]);
    assert_eq!(entry.description, "");
}

#[test]
fn events_keep_what_their_entries_say() {
    let entry = Entry::from_str("25.04 p# thesis  due", 2019).unwrap();
    let placed = entry.date.in_zone();
    let event = Event::of_entry(entry.clone(), placed).unwrap();
    assert_eq!(event.date, DateVariant::Date(date(2019, 4, 25)));
    assert_eq!(event.tags, entry.tags);
    assert_eq!(event.description, "thesis due");
    assert_eq!(Event::of_entry(entry, None), None);
    assert_eq!(*memoparsa::format::Event::date(&event), DateVariant::Date(date(2019, 4, 25)));
    assert_eq!(memoparsa::format::Event::description(&event), "thesis due");
}

#[test]
fn span_of_days_with_a_start_time() {
    let entry = Entry::from_str("22.-27.10 9:30 p camp", 2019).unwrap();
    assert_eq!(
        entry.date,
        NaiveVariant::TimeSpan(wall(2019, 10, 22, 9, 30), wall(2019, 10, 27, 23, 59))
    );
    assert_eq!(entry.tags, vec![Tag::PublishToIcs]);
    assert_eq!(entry.description, "camp");
    // a span of times behind a span of days is not read as one
    let entry = Entry::from_str("22.-27.10 12:40-13:20 camp", 2019).unwrap();
    assert_eq!(
        entry.date,
        NaiveVariant::TimeSpan(wall(2019, 10, 22, 6, 0), wall(2019, 10, 27, 23, 59))
    );
    assert_eq!(entry.description, "12:40-13:20 camp");
}

#[test]
fn moment_with_a_weekday_label() {
    let entry = Entry::from_str("ma  25.04    2359  pp# x", 2019).unwrap();
    assert_eq!(entry.date, NaiveVariant::DateTime(wall(2019, 4, 25, 23, 59)));
    assert_eq!(entry.tags, vec![Tag::PublishToIcs, Tag::PublishToIcs, Tag::Acknowledge]);
    assert_eq!(entry.description, "x");
    for label in ["ma", "ti", "ke", "to", "pe", "la", "su", "Mo", "Tu", "We", "Th", "Fr", "Sa", "Su"] {
        assert!(weekday_label(&chars_of(label)), "{}", label);
        let line = format!("{} 25.04 note", label);
        assert_eq!(Entry::from_str(&line, 2019).unwrap().description, "note");
    }
    for word in ["", "m", "maa", "MA", "mo", "Ma", "pp", "25"] {
        assert!(!weekday_label(&chars_of(word)), "{}", word);
    }
}

#[test]
fn lines_that_are_no_entries_say_why() {
    let reason = |line: &str| Entry::from_str(line, 2019).unwrap_err().reason;
    assert_eq!(reason(""), Reason::TooFewTokens);
    assert_eq!(reason("   "), Reason::TooFewTokens);
    assert_eq!(reason("2020"), Reason::TooFewTokens);
    assert_eq!(reason("ma"), Reason::TooFewTokens);
    assert_eq!(reason("ma ti"), Reason::NoDate);
    assert_eq!(reason("ma 31.04"), Reason::ImpossibleDate);
    assert_eq!(reason("25.04"), Reason::TooFewTokens);
    assert_eq!(reason("just some words"), Reason::NoDate);
    assert_eq!(reason("25 .04 x"), Reason::NoDate);
    assert_eq!(reason("25.x x"), Reason::NoDate);
    assert_eq!(reason("-27.10 x"), Reason::NoDate);
    assert_eq!(reason("a-27.10 x"), Reason::NoDate);
    assert_eq!(reason("22.-27 x"), Reason::NoDate);
    assert_eq!(reason("31.04 x"), Reason::ImpossibleDate);
    assert_eq!(reason("29.02 x"), Reason::ImpossibleDate);
    assert_eq!(reason("0.1 x"), Reason::ImpossibleDate);
    assert_eq!(reason("1.13 x"), Reason::ImpossibleDate);
    assert_eq!(reason("31.-5.04 x"), Reason::ImpossibleDate);
    assert_eq!(reason("1.-31.04 x"), Reason::ImpossibleDate);
    assert_eq!(reason("1.2.3-31.2 x"), Reason::ImpossibleDate);
    assert_eq!(Entry::from_str("1.1 x", 300000).unwrap_err().reason, Reason::ImpossibleDate);
    let error = Event::from_str("31.04 x", 2019).unwrap_err();
    assert_eq!(error.reason, Reason::ImpossibleDate);
    assert_eq!(error.line, "31.04 x");
    assert_eq!(error.message(), "the calendar has no such day as in 31.04 x");
    let error = Event::from_str("no date", 2019).unwrap_err();
    assert_eq!(error.message(), "could not parse date from no date");
    let error = Event::from_str("alone", 2019).unwrap_err();
    assert_eq!(
        error.message(),
        "not enough elements to create both date and description in alone"
    );
}

#[test]
fn a_time_that_helsinki_skipped_is_no_event() {
    // on 31 March 2019 the clocks went from 03:00 to 04:00
    let entry = Entry::from_str("31.03 03:30 p nothing", 2019).unwrap();
    assert_eq!(entry.date, NaiveVariant::DateTime(wall(2019, 3, 31, 3, 30)));
    let error = Event::from_str("31.03 03:30 p nothing", 2019).unwrap_err();
    assert_eq!(error.reason, Reason::NoLocalTime);
    assert_eq!(error.message(), "the time zone has no such time as in 31.03 03:30 p nothing");
    // and on 27 October 2019 from 04:00 back to 03:00
    let error = Event::from_str("27.10 03:30 p twice", 2019).unwrap_err();
    assert_eq!(error.reason, Reason::NoLocalTime);
    assert!(Event::from_str("31.03 02:59 p fine", 2019).is_ok());
    assert!(Event::from_str("31.03 04:00 p fine", 2019).is_ok());
}

#[test]
fn a_span_that_would_end_early_ends_365_days_later() {
    let found = |token: &str, year: i32| read_datespan(&chars_of(token), year);
    assert_eq!(
        found("22.-27.10", 2019),
        Reading::Found((date(2019, 10, 22), date(2019, 10, 27)))
    );
    assert_eq!(
        found("28.12-3.1", 2019),
        Reading::Found((date(2019, 12, 28), date(2020, 1, 3)))
    );
    // across 29 February 2020 the end falls one day short of the same date
    assert_eq!(
        found("28.12-1.3", 2019),
        Reading::Found((date(2019, 12, 28), date(2020, 2, 29)))
    );
    // a span from a day to the same day is pushed on as well
    assert_eq!(
        found("5.5-5.5", 2019),
        Reading::Found((date(2019, 5, 5), date(2020, 5, 4)))
    );
    // in a leap year the first day plus 365 days is still in that year
    assert_eq!(
        found("31.12-1.1", 2020),
        Reading::Found((date(2020, 12, 31), date(2020, 12, 31)))
    );
    // the month of the end is taken for a bare day
    assert_eq!(found("30-2.2", 2019), Reading::Impossible);
    assert_eq!(found("3...-2.2", 2019), Reading::Found((date(2019, 2, 3), date(2020, 2, 2))));
    assert_eq!(found("28.12-3.1", 262142), Reading::Impossible);
    assert_eq!(found("22.10", 2019), Reading::NoMatch);
    assert_eq!(found("1.1-2.1-3.1", 2019), Reading::NoMatch);
    assert_eq!(found("x-2.1", 2019), Reading::NoMatch);
    assert_eq!(found("1.1-x", 2019), Reading::NoMatch);
    assert_eq!(found("31.2-x", 2019), Reading::NoMatch);
}

#[test]
fn settle_goes_by_what_was_found() {
    let first = date(2019, 10, 22);
    let last = date(2019, 10, 27);
    let noon = time(12, 0);
    let range = Some((time(12, 40), time(13, 20)));
    assert_eq!(
        settle(Reading::Found((first, last)), Reading::NoMatch, None, None),
        Ok((NaiveVariant::TimeSpan(first.at(time(6, 0)), last.at(time(23, 59))), 1))
    );
    assert_eq!(
        settle(Reading::Found((first, last)), Reading::Found(first), Some(noon), range),
        Ok((NaiveVariant::TimeSpan(first.at(noon), last.at(time(23, 59))), 2))
    );
    assert_eq!(
        settle(Reading::Found((first, last)), Reading::NoMatch, None, range),
        Ok((NaiveVariant::TimeSpan(first.at(time(6, 0)), last.at(time(23, 59))), 1))
    );
    assert_eq!(
        settle(Reading::Impossible, Reading::Found(first), Some(noon), range),
        Err(Reason::ImpossibleDate)
    );
    assert_eq!(
        settle(Reading::NoMatch, Reading::Found(first), Some(noon), range),
        Ok((NaiveVariant::DateTime(first.at(noon)), 2))
    );
    assert_eq!(
        settle(Reading::NoMatch, Reading::Found(first), None, range),
        Ok((NaiveVariant::TimeSpan(first.at(time(12, 40)), first.at(time(13, 20))), 2))
    );
    assert_eq!(
        settle(Reading::NoMatch, Reading::Found(first), None, None),
        Ok((NaiveVariant::Date(first), 1))
    );
    assert_eq!(
        settle(Reading::NoMatch, Reading::Impossible, Some(noon), range),
        Err(Reason::ImpossibleDate)
    );
    assert_eq!(settle(Reading::NoMatch, Reading::NoMatch, Some(noon), range), Err(Reason::NoDate));
}

#[test]
fn tags_are_all_or_nothing() {
    assert_eq!(read_tags(&chars_of("p")), Some(vec![Tag::PublishToIcs]));
    assert_eq!(read_tags(&chars_of("#")), Some(vec![Tag::Acknowledge]));
    assert_eq!(
        read_tags(&chars_of("#p#")),
        Some(vec![Tag::Acknowledge, Tag::PublishToIcs, Tag::Acknowledge])
    );
    assert_eq!(read_tags(&chars_of("px")), None);
    assert_eq!(read_tags(&chars_of("xp")), None);
    assert_eq!(read_tags(&chars_of("P")), None);
    assert_eq!(read_tags(&chars_of("päivä")), None);
    let tokens = split_words(&chars_of("25.04 p# px rest"));
    assert_eq!(take_tags(&tokens, 1), (vec![Tag::PublishToIcs, Tag::Acknowledge], 2));
    assert_eq!(take_tags(&tokens, 2), (vec![], 2));
    assert_eq!(take_tags(&tokens, 4), (vec![], 4));
    let entry = Entry::from_str("25.04 px p rest", 2019).unwrap();
    assert_eq!(entry.tags, vec![]);
    assert_eq!(entry.description, "px p rest");
}
