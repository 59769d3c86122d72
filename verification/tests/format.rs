use chrono::Datelike;
use chrono::TimeZone;
use chrono::Timelike;
use memoparsa::civil::CalendarDate;
use memoparsa::civil::ClockTime;
use memoparsa::format::parse_date;
use memoparsa::format::parse_time;
use memoparsa::format::parse_timespan;
use memoparsa::format::read_date;
use memoparsa::format::read_day_and_month;
use memoparsa::format::DateVariant;
use memoparsa::format::NaiveVariant;
use memoparsa::format::Reading;
use memoparsa::text::chars_of;
use memoparsa::zone::day_in_zone;
use memoparsa::zone::Moment;
use memoparsa::zone::ZONE;

fn date(year: i32, month: u32, day: u32) -> CalendarDate {
    CalendarDate::from_ymd(year, month, day).unwrap()
}

fn time(hour: u32, minute: u32) -> ClockTime {
    ClockTime::from_hm(hour, minute).unwrap()
}

#[test]
fn parse_date_reads_day_and_month() {
    assert_eq!(parse_date("25.04", 2019), Some(date(2019, 4, 25)));
    assert_eq!(parse_date("3.9", 2019), Some(date(2019, 9, 3)));
    assert_eq!(parse_date("27.10", -44), Some(date(-44, 10, 27)));
    assert_eq!(parse_date("+1.+2", 2019), Some(date(2019, 2, 1)));
    assert_eq!(parse_date("001.0002", 2019), Some(date(2019, 2, 1)));
    assert_eq!(parse_date("29.2", 2020), Some(date(2020, 2, 29)));
    // what follows a second dot is not looked at
    assert_eq!(parse_date("25.04.", 2019), Some(date(2019, 4, 25)));
    assert_eq!(parse_date("25.04.1999", 2019), Some(date(2019, 4, 25)));
    assert_eq!(parse_date("25.04.x-y", 2019), Some(date(2019, 4, 25)));
}

#[test]
fn parse_date_recovers_every_day_of_a_year() {
    for year in [2019, 2020, 1900, 2000, -1] {
        let mut count = 0;
        for month in 1..=12u32 {
            for day in 1..=31u32 {
                let token = format!("{:02}.{:02}", day, month);
                match parse_date(&token, year) {
                    Some(found) => {
                        assert_eq!((found.year(), found.month(), found.day()), (year, month, day));
                        count += 1;
                    }
                    None => assert!(chrono::NaiveDate::from_ymd_opt(year, month, day).is_none()),
                }
            }
        }
        let leap = year % 4 == 0 && (year % 100 != 0 || year % 400 == 0);
        assert_eq!(count, if leap { 366 } else { 365 });
    }
}

#[test]
fn parse_date_finds_no_date_in_other_text() {
    for token in ["", "25", "25.", ".04", ".", "..", "a.b", "25.b", "a.04", "25,04", "-1.2", "1.-2", "2 5.04", "25.0 4", "1e1.2"] {
        assert_eq!(parse_date(token, 2019), None, "{:?}", token);
        assert_eq!(read_date(&chars_of(token), 2019), Reading::NoMatch, "{:?}", token);
        assert_eq!(read_day_and_month(&chars_of(token)), None, "{:?}", token);
    }
    assert_eq!(parse_date("4294967296.1", 2019), None);
    assert_eq!(read_date(&chars_of("4294967296.1"), 2019), Reading::NoMatch);
}

#[test]
fn a_written_date_that_does_not_exist_is_told_apart() {
    assert_eq!(read_day_and_month(&chars_of("31.04")), Some((31, 4)));
    assert_eq!(read_date(&chars_of("31.04"), 2019), Reading::Impossible);
    assert_eq!(read_date(&chars_of("29.02"), 2019), Reading::Impossible);
    assert_eq!(read_date(&chars_of("0.0"), 2019), Reading::Impossible);
    assert_eq!(read_date(&chars_of("4294967295.4294967295"), 2019), Reading::Impossible);
    assert_eq!(read_date(&chars_of("1.1"), 262143), Reading::Impossible);
    assert_eq!(read_date(&chars_of("1.1"), 262142), Reading::Found(date(262142, 1, 1)));
    assert_eq!(parse_date("31.04", 2019), None);
}

#[test]
fn parse_time_reads_both_forms() {
    assert_eq!(parse_time("23:59"), Some(time(23, 59)));
    assert_eq!(parse_time("2359"), Some(time(23, 59)));
    assert_eq!(parse_time("12:40"), Some(time(12, 40)));
    assert_eq!(parse_time("9:15"), Some(time(9, 15)));
    assert_eq!(parse_time("09:15"), Some(time(9, 15)));
    assert_eq!(parse_time("0915"), Some(time(9, 15)));
    assert_eq!(parse_time("0:00"), Some(time(0, 0)));
    assert_eq!(parse_time("0000"), Some(time(0, 0)));
    // white space around a time with a colon does no harm
    assert_eq!(parse_time(" 9:15"), Some(time(9, 15)));
    assert_eq!(parse_time("9:15 "), Some(time(9, 15)));
    assert_eq!(parse_time("\t 23:59\u{a0}\n"), Some(time(23, 59)));
    for token in [
        "", "p", "24:00", "12:60", "2400", "1260", "12", "12:", ":40", "12.40", "12:40:00",
        "12:40-13:20", "noon", "25.04", "7:5", "12:5", "123", "12345", "012:40", "12:040",
        "12: 40", "12 :40", "1 2:40", " 2359", "2359 ", "23 59", "+1:30", "-1:30", "١٢:٤٠",
    ] {
        assert_eq!(parse_time(token), None, "{:?}", token);
    }
}

#[test]
fn parse_time_knows_every_minute_of_the_day() {
    for hour in 0..=99u32 {
        for minute in 0..=99u32 {
            let expected = ClockTime::from_hm(hour, minute);
            assert_eq!(parse_time(&format!("{:02}:{:02}", hour, minute)), expected);
            assert_eq!(parse_time(&format!("{:02}{:02}", hour, minute)), expected);
            if hour < 10 {
                assert_eq!(parse_time(&format!("{}:{:02}", hour, minute)), expected);
            }
        }
    }
}

#[test]
fn parse_timespan_needs_two_times() {
    assert_eq!(parse_timespan("12:40-13:20"), Some((time(12, 40), time(13, 20))));
    assert_eq!(parse_timespan("1240-1320"), Some((time(12, 40), time(13, 20))));
    assert_eq!(parse_timespan("9:00-1730"), Some((time(9, 0), time(17, 30))));
    // the span is not asked to run forward
    assert_eq!(parse_timespan("13:20-12:40"), Some((time(13, 20), time(12, 40))));
    assert_eq!(parse_timespan("9:00 - 17:30"), Some((time(9, 0), time(17, 30))));
    for token in ["", "-", "12:40", "12:40-", "-13:20", "12:40-13:20-14:00", "12:40–13:20", "12:40-25:00", "x-13:20", "7:5-8:00"] {
        assert_eq!(parse_timespan(token), None, "{:?}", token);
    }
}

#[test]
fn moments_are_placed_in_helsinki() {
    let winter = Moment::in_zone(ZONE, date(2019, 1, 15).at(time(12, 0))).unwrap();
    assert_eq!(winter.seconds(), 1547546400); // 10:00 UTC
    let summer = Moment::in_zone(ZONE, date(2019, 7, 15).at(time(12, 0))).unwrap();
    assert_eq!(summer.seconds(), 1563181200); // 09:00 UTC
    assert!(Moment::in_zone(ZONE, date(2019, 3, 31).at(time(3, 30))).is_none());
    assert!(Moment::in_zone(ZONE, date(2019, 10, 27).at(time(3, 30))).is_none());
    assert!(Moment::in_zone("Nowhere/Land", date(2019, 1, 15).at(time(12, 0))).is_none());
    let elsewhere = Moment::in_zone("America/New_York", date(2019, 1, 15).at(time(12, 0))).unwrap();
    assert_eq!(elsewhere.seconds(), 1547571600); // 17:00 UTC
}

#[test]
fn the_local_time_of_a_moment_is_that_of_chrono() {
    let moment = Moment::in_zone(ZONE, date(2019, 10, 22).at(time(6, 0))).unwrap();
    let here = chrono::Local.timestamp_opt(moment.seconds(), 0).unwrap();
    let local = moment.local();
    assert_eq!(local.date(), date(here.year(), here.month(), here.day()));
    assert_eq!((local.hour(), local.minute(), local.second()), (here.hour(), here.minute(), here.second()));
}

#[test]
fn days_are_known_to_the_zone() {
    assert!(day_in_zone(ZONE, date(2019, 4, 25)));
    assert!(day_in_zone(ZONE, date(2019, 3, 31)));
    assert!(!day_in_zone("Nowhere/Land", date(2019, 4, 25)));
    // Samoa skipped 30 December 2011
    assert!(!day_in_zone("Pacific/Apia", date(2011, 12, 30)));
    assert!(day_in_zone("Pacific/Apia", date(2011, 12, 29)));
}

#[test]
fn dates_are_put_together_from_their_parts() {
    let day = date(2019, 9, 3);
    let start = Moment::in_zone(ZONE, day.at(time(12, 40)));
    let end = Moment::in_zone(ZONE, day.at(time(13, 20)));
    let span = NaiveVariant::TimeSpan(day.at(time(12, 40)), day.at(time(13, 20)));
    assert_eq!(span.zoned(start, end, false), Some(DateVariant::TimeSpan(start.unwrap(), end.unwrap())));
    assert_eq!(span.zoned(start, None, true), None);
    assert_eq!(span.zoned(None, end, true), None);
    assert_eq!(span.in_zone(), Some(DateVariant::TimeSpan(start.unwrap(), end.unwrap())));
    let at = NaiveVariant::DateTime(day.at(time(12, 40)));
    assert_eq!(at.zoned(start, None, false), Some(DateVariant::DateTime(start.unwrap())));
    assert_eq!(at.zoned(None, end, true), None);
    assert_eq!(at.in_zone(), Some(DateVariant::DateTime(start.unwrap())));
    let whole = NaiveVariant::Date(day);
    assert_eq!(whole.zoned(None, None, true), Some(DateVariant::Date(day)));
    assert_eq!(whole.zoned(start, end, false), None);
    assert_eq!(whole.in_zone(), Some(DateVariant::Date(day)));
}

#[test]
fn a_moment_needs_its_instant_and_its_local_time() {
    let local = date(2019, 10, 22).at(time(6, 0));
    assert_eq!(Moment::shown(Some(1571713200), Some(local)), Some(Moment::from_parts(1571713200, local)));
    assert_eq!(Moment::shown(Some(1571713200), None), None);
    assert_eq!(Moment::shown(None, Some(local)), None);
    assert_eq!(Moment::shown(None, None), None);
    let moment = Moment::shown(Some(-5), Some(local)).unwrap();
    assert_eq!(moment.seconds(), -5);
    assert_eq!(moment.local(), local);
}

#[test]
fn a_time_that_the_zone_has_is_a_moment_in_every_inner_year() {
    for (year, month, day, hour, minute) in [
        (-262142, 1, 1, 0, 0),
        (-262142, 6, 15, 12, 30),
        (-1, 12, 31, 23, 59),
        (0, 1, 1, 0, 0),
        (1878, 5, 31, 0, 0),
        (1970, 1, 1, 0, 0),
        (2019, 10, 22, 6, 0),
        (2100, 2, 28, 23, 59),
        (262141, 12, 31, 23, 59),
    ] {
        let at = date(year, month, day).at(time(hour, minute));
        let moment = Moment::in_zone(ZONE, at).unwrap();
        // the instant lies less than a day from the wall-clock time read as UTC
        let as_utc = chrono::NaiveDate::from_ymd_opt(year, month, day)
            .unwrap()
            .and_hms_opt(hour, minute, 0)
            .unwrap()
            .and_utc()
            .timestamp();
        assert!((moment.seconds() - as_utc).abs() < 86400, "{}", year);
        // and so does the local time of the process
        let local = moment.local();
        let shown = chrono::NaiveDate::from_ymd_opt(
            local.date().year(),
            local.date().month(),
            local.date().day(),
        )
        .unwrap()
        .and_hms_opt(local.hour(), local.minute(), local.second())
        .unwrap()
        .and_utc()
        .timestamp();
        assert!((shown - moment.seconds()).abs() < 86400, "{}", year);
    }
}

#[test]
fn the_seconds_of_the_contract_are_those_of_chrono() {
    // (day number - day number of 1 January 1970) * 86400 + the time of day
    let epoch = chrono::NaiveDate::from_ymd_opt(1970, 1, 1).unwrap().num_days_from_ce() as i64;
    assert_eq!(epoch, 719163);
    for (year, month, day, hour, minute, second) in
        [(1970, 1, 1, 0, 0, 0), (2019, 10, 22, 6, 0, 59), (-262143, 1, 1, 0, 0, 0), (262142, 12, 31, 23, 59, 59)]
    {
        let on = chrono::NaiveDate::from_ymd_opt(year, month, day).unwrap();
        let counted = (on.num_days_from_ce() as i64 - epoch) * 86400
            + (hour * 3600 + minute * 60 + second) as i64;
        assert_eq!(counted, on.and_hms_opt(hour, minute, second).unwrap().and_utc().timestamp());
    }
    // the first and the last second that chrono can hold are those of the supported years
    let first = chrono::NaiveDate::from_ymd_opt(-262143, 1, 1).unwrap().and_hms_opt(0, 0, 0).unwrap();
    let last = chrono::NaiveDate::from_ymd_opt(262142, 12, 31).unwrap().and_hms_opt(23, 59, 59).unwrap();
    assert!(chrono::DateTime::from_timestamp(first.and_utc().timestamp(), 0).is_some());
    assert!(chrono::DateTime::from_timestamp(first.and_utc().timestamp() - 1, 0).is_none());
    assert!(chrono::DateTime::from_timestamp(last.and_utc().timestamp(), 0).is_some());
    assert!(chrono::DateTime::from_timestamp(last.and_utc().timestamp() + 1, 0).is_none());
}
