use ajour::daily::aggregate;
use ajour::entry::{MAX_INSTANT, MIN_INSTANT};
use ajour::date::DateError;
use ajour::filter::{Bound, BoundError};
use ajour::report::{
    entry_line, format_line, list, list_lines, summary, summary_line, summary_lines, ReportError,
};
use ajour::store::append_note;
use ajour::{filter, DailySummary, Entry};
use chrono::{DateTime, Local, TimeZone, Utc};

fn local_time(timestamp: i64) -> String {
    format!("{}", DateTime::<Local>::from(DateTime::from_timestamp(timestamp, 0).unwrap()))
}

fn local_date(timestamp: i64) -> String {
    let at = DateTime::<Local>::from(DateTime::from_timestamp(timestamp, 0).unwrap());
    format!("{}", at.format("%Y-%m-%d"))
}

#[test]
fn line_is_label_colon_message() {
    assert_eq!(format_line("2024-01-05", "Buy milk. Walk dog"), "2024-01-05: Buy milk. Walk dog");
    assert_eq!(format_line("", ""), ": ");
}

#[test]
fn listing_has_one_line_per_entry_in_store_order() {
    let entries = vec![
        Entry::new(1_704_464_100, String::from("second thoughts")),
        Entry::new(1_704_400_000, String::from("first thoughts")),
    ];
    let lines = list_lines(&entries).unwrap();
    assert_eq!(
        lines,
        vec![
            format!("{}: second thoughts", local_time(1_704_464_100)),
            format!("{}: first thoughts", local_time(1_704_400_000)),
        ]
    );
}

#[test]
fn listing_of_nothing_is_empty() {
    assert_eq!(list_lines(&Vec::new()), Some(Vec::new()));
}

#[test]
fn listing_reaches_the_ends_of_the_calendar() {
    assert!(DateTime::from_timestamp(MIN_INSTANT, 0).is_some());
    assert!(DateTime::from_timestamp(MIN_INSTANT - 1, 0).is_none());
    assert!(DateTime::from_timestamp(MAX_INSTANT, 0).is_some());
    assert!(DateTime::from_timestamp(MAX_INSTANT + 1, 0).is_none());
    assert_eq!(DateTime::from_timestamp(MIN_INSTANT, 0), Some(DateTime::<Utc>::MIN_UTC));
    assert_eq!(DateTime::from_timestamp(MAX_INSTANT, 999_999_999), Some(DateTime::<Utc>::MAX_UTC));
    assert!(list_lines(&vec![Entry::new(MIN_INSTANT, String::from("dawn"))]).is_some());
    assert!(list_lines(&vec![Entry::new(MAX_INSTANT, String::from("dusk"))]).is_some());
    assert_eq!(list_lines(&vec![Entry::new(MIN_INSTANT - 1, String::from("x"))]), None);
    assert_eq!(list_lines(&vec![Entry::new(MAX_INSTANT + 1, String::from("x"))]), None);
    let mixed = vec![Entry::new(0, String::from("fine")), Entry::new(i64::MAX, String::from("x"))];
    assert_eq!(list_lines(&mixed), None);
}

#[test]
fn summary_lines_carry_the_local_date() {
    let summaries = vec![
        DailySummary { day: 1_704_326_400, message: String::from("Only one") },
        DailySummary { day: 1_704_412_800, message: String::from("Buy milk. Walk dog") },
    ];
    let lines = summary_lines(&summaries).unwrap();
    assert_eq!(
        lines,
        vec![
            format!("{}: Only one", local_date(1_704_326_400)),
            format!("{}: Buy milk. Walk dog", local_date(1_704_412_800)),
        ]
    );
    let label = &lines[1][..10];
    assert_eq!(label.len(), 10);
    assert!(label.chars().all(|c| c.is_ascii_digit() || c == '-'));
}

#[test]
fn summary_lines_of_nothing_is_empty() {
    assert_eq!(summary_lines(&Vec::new()), Some(Vec::new()));
}

#[test]
fn two_notes_on_one_day_make_one_summary_line() {
    let noon = Local.with_ymd_and_hms(2024, 1, 5, 12, 0, 0).unwrap().timestamp();
    let mut entries = Vec::new();
    assert!(append_note(&mut entries, noon, &vec![String::from("buy"), String::from("milk")]));
    assert!(append_note(&mut entries, noon + 60, &vec![String::from("walk"), String::from("dog")]));
    let kept = filter(&entries, None, None);
    let summaries = aggregate(&kept).unwrap();
    let lines = summary_lines(&summaries).unwrap();
    assert_eq!(lines.len(), 1);
    assert_eq!(lines[0], format!("{}: Buy milk. Walk dog", local_date(summaries[0].day)));
    assert_eq!(summary(&entries, None, None), Ok(lines));
}

fn journal() -> Vec<Entry> {
    let noon = Local.with_ymd_and_hms(2024, 1, 5, 12, 0, 0).unwrap().timestamp();
    vec![
        Entry::new(noon + 86_400, String::from("next day")),
        Entry::new(noon, String::from("buy milk")),
        Entry::new(noon + 60, String::from("walk dog")),
        Entry::new(noon - 3 * 86_400, String::from("long before")),
    ]
}

#[test]
fn list_between_dates_keeps_store_order() {
    let entries = journal();
    let lines = list(&entries, Some(String::from("2024-01-05")), None).unwrap();
    assert_eq!(
        lines,
        vec![
            format!("{}: next day", local_time(entries[0].timestamp)),
            format!("{}: buy milk", local_time(entries[1].timestamp)),
            format!("{}: walk dog", local_time(entries[2].timestamp)),
        ]
    );
    assert_eq!(list(&entries, None, None).unwrap().len(), 4);
}

#[test]
fn summary_between_dates_is_sorted_by_day() {
    let entries = journal();
    let from = Some(String::from("2024-01-05"));
    let to = Some(String::from("2024-01-07"));
    let lines = summary(&entries, from, to).unwrap();
    let day = entries[1].timestamp - entries[1].timestamp.rem_euclid(86_400);
    assert_eq!(
        lines,
        vec![
            format!("{}: Buy milk. Walk dog", local_date(day)),
            format!("{}: next day", local_date(day + 86_400)),
        ]
    );
    assert_eq!(summary(&entries, None, None).unwrap().len(), 3);
}

#[test]
fn reports_fail_on_a_bad_bound() {
    let bad = ReportError::Bound(BoundError { bound: Bound::To, cause: DateError::Unrecognized });
    assert_eq!(list(&journal(), None, Some(String::from("2024-13-40"))), Err(bad));
    assert_eq!(summary(&Vec::new(), None, Some(String::from("2024-13-40"))), Err(bad));
    let bad = ReportError::Bound(BoundError { bound: Bound::From, cause: DateError::Unrecognized });
    assert_eq!(summary(&journal(), Some(String::from("today")), None), Err(bad));
}

#[test]
fn reports_fail_on_an_instant_out_of_reach() {
    let far = vec![Entry::new(9_223_372_037, String::from("far away"))];
    assert!(list(&far, None, None).is_ok());
    assert_eq!(summary(&far, None, None), Err(ReportError::Instant));
    let beyond = vec![Entry::new(MAX_INSTANT + 1, String::from("beyond"))];
    assert_eq!(list(&beyond, None, None), Err(ReportError::Instant));
    assert_eq!(summary(&beyond, None, None), Err(ReportError::Instant));
}

#[test]
fn entry_line_at_a_fixed_offset() {
    let entry = Entry::new(1_704_464_100, String::from("buy milk"));
    assert_eq!(entry_line(&entry, 0), Some(String::from("2024-01-05 14:15:00 +00:00: buy milk")));
    assert_eq!(
        entry_line(&entry, 3600),
        Some(String::from("2024-01-05 15:15:00 +01:00: buy milk"))
    );
    assert_eq!(
        entry_line(&entry, -5 * 3600 - 1800),
        Some(String::from("2024-01-05 08:45:00 -05:30: buy milk"))
    );
}

#[test]
fn entry_line_needs_an_offset_shorter_than_a_day() {
    let entry = Entry::new(0, String::from("x"));
    assert!(entry_line(&entry, 86_399).is_some());
    assert!(entry_line(&entry, -86_399).is_some());
    assert_eq!(entry_line(&entry, 86_400), None);
    assert_eq!(entry_line(&entry, -86_400), None);
    assert_eq!(entry_line(&Entry::new(MAX_INSTANT + 1, String::from("x")), 0), None);
    assert!(entry_line(&Entry::new(MAX_INSTANT, String::from("x")), 86_399).is_some());
    assert!(entry_line(&Entry::new(MIN_INSTANT, String::from("x")), -86_399).is_some());
}

#[test]
fn summary_line_at_a_fixed_offset() {
    let day = DailySummary { day: 1_704_412_800, message: String::from("Buy milk. Walk dog") };
    assert_eq!(summary_line(&day, 0), Some(String::from("2024-01-05: Buy milk. Walk dog")));
    assert_eq!(summary_line(&day, 3600), Some(String::from("2024-01-05: Buy milk. Walk dog")));
    assert_eq!(summary_line(&day, -1), Some(String::from("2024-01-04: Buy milk. Walk dog")));
}

#[test]
fn summary_line_at_the_ends_of_the_calendar() {
    let first = DailySummary { day: MIN_INSTANT, message: String::from("a") };
    let last = DailySummary { day: MAX_INSTANT, message: String::from("z") };
    assert_eq!(summary_line(&first, 0), Some(String::from("-262143-01-01: a")));
    assert_eq!(summary_line(&last, 0), Some(String::from("+262142-12-31: z")));
    assert!(summary_line(&first, -86_399).is_some());
    assert!(summary_line(&last, 86_399).is_some());
    assert_eq!(summary_line(&first, 86_400), None);
    let before = DailySummary { day: MIN_INSTANT - 1, message: String::new() };
    assert_eq!(summary_line(&before, 0), None);
}

#[test]
fn summary_lines_refuse_a_day_out_of_reach() {
    let days = vec![
        DailySummary { day: 0, message: String::from("fine") },
        DailySummary { day: MAX_INSTANT + 1, message: String::from("beyond") },
    ];
    assert_eq!(summary_lines(&days), None);
}
