use ajour::date::{
    parse_date, parse_instant, prefer, read_naive, settle, DateError, LocalInstant,
};
use chrono::{Local, NaiveDate, TimeZone};

fn local_instant(year: i32, month: u32, day: u32, hour: u32, minute: u32) -> i64 {
    Local.with_ymd_and_hms(year, month, day, hour, minute, 0).single().unwrap().timestamp()
}

fn naive_seconds(year: i32, month: u32, day: u32, hour: u32, minute: u32) -> i64 {
    NaiveDate::from_ymd_opt(year, month, day)
        .unwrap()
        .and_hms_opt(hour, minute, 0)
        .unwrap()
        .and_utc()
        .timestamp()
}

#[test]
fn date_only_is_local_midnight() {
    assert_eq!(parse_instant("2024-01-05"), Ok(local_instant(2024, 1, 5, 0, 0)));
}

#[test]
fn date_with_time_is_that_local_time() {
    assert_eq!(parse_instant("2024-01-05 14:30"), Ok(local_instant(2024, 1, 5, 14, 30)));
}

#[test]
fn impossible_date_fails_to_parse() {
    assert_eq!(parse_instant("2024-13-40"), Err(DateError::Unrecognized));
}

#[test]
fn other_formats_are_not_accepted() {
    let texts = [
        "",
        "yesterday",
        "05/01/2024",
        "2024-01-05T14:30",
        "2024-01-05 14:30:15",
        "14:30",
        "2024-02-30",
    ];
    for text in texts {
        assert_eq!(parse_instant(text), Err(DateError::Unrecognized), "{:?}", text);
    }
}

#[test]
fn leap_day_is_accepted() {
    assert_eq!(parse_instant("2024-02-29"), Ok(local_instant(2024, 2, 29, 0, 0)));
    assert_eq!(parse_instant("2023-02-29"), Err(DateError::Unrecognized));
}

#[test]
fn last_minute_of_the_day() {
    assert_eq!(parse_instant("2024-12-31 23:59"), Ok(local_instant(2024, 12, 31, 23, 59)));
    assert_eq!(parse_instant("2024-12-31 24:00"), Err(DateError::Unrecognized));
}

#[test]
fn read_naive_gives_the_seconds_of_the_date() {
    assert_eq!(read_naive("2024-01-05"), Some(naive_seconds(2024, 1, 5, 0, 0)));
    assert_eq!(read_naive("2024-01-05 14:30"), Some(naive_seconds(2024, 1, 5, 14, 30)));
    assert_eq!(read_naive("1970-01-01"), Some(0));
    assert_eq!(read_naive("1970-01-01 00:01"), Some(60));
    assert_eq!(read_naive("1969-12-31 23:59"), Some(-60));
    assert_eq!(read_naive("2024-13-40"), None);
}

#[test]
fn settle_takes_a_single_instant() {
    assert_eq!(settle(LocalInstant::Single(1_704_464_100)), Ok(1_704_464_100));
    assert_eq!(settle(LocalInstant::Single(-1)), Ok(-1));
}

#[test]
fn settle_refuses_an_ambiguous_local_time() {
    assert_eq!(
        settle(LocalInstant::Ambiguous(1_698_539_400, 1_698_543_000)),
        Err(DateError::Ambiguous(1_698_539_400, 1_698_543_000))
    );
}

#[test]
fn settle_refuses_a_missing_local_time() {
    assert_eq!(settle(LocalInstant::Missing), Err(DateError::Nonexistent));
}

#[test]
fn no_date_is_no_bound() {
    assert_eq!(parse_date(None), Ok(None));
}

#[test]
fn a_date_is_a_bound() {
    assert_eq!(
        parse_date(Some(String::from("2024-01-05"))),
        Ok(Some(local_instant(2024, 1, 5, 0, 0)))
    );
    assert_eq!(parse_date(Some(String::from("2024-13-40"))), Err(DateError::Unrecognized));
}

#[test]
fn the_reading_with_a_time_is_preferred() {
    assert_eq!(prefer(Some(60), Some(0)), Some(60));
    assert_eq!(prefer(Some(60), None), Some(60));
    assert_eq!(prefer(None, Some(0)), Some(0));
    assert_eq!(prefer(None, None), None);
}
