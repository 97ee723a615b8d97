use chrono::{Datelike, NaiveDate};
use daily_metrics::{row_day, scan_history, scan_records, summarize, ScanSummary};

const HEADER: &str = "timestamp,day_count,sleep_hours,sleep_quality,sleepiness,zonkedness,energy,strength,focus,intelligence,workout_today,remarks\n";

fn day(y: i32, m: u32, d: u32) -> i32 {
    NaiveDate::from_ymd_opt(y, m, d).unwrap().num_days_from_ce()
}

fn row(ts: &str, workout: &str) -> String {
    format!("{},1,7,8,3,4,5,6,7,8,{},fine\n", ts, workout)
}

#[test]
fn no_history_gives_empty_summary() {
    let s = ScanSummary::empty();
    assert_eq!(s.first_entry_date, None);
    assert_eq!(s.last_entry_date, None);
    assert!(!s.workout_logged_today);
    assert_eq!(scan_history(b"", day(2024, 3, 10)), s);
    assert_eq!(scan_history(HEADER.as_bytes(), day(2024, 3, 10)), s);
}

#[test]
fn first_is_minimum_and_last_is_file_order() {
    let text = format!(
        "{}{}{}{}",
        HEADER,
        row("2024-03-05T08:00:00+00:00", "false"),
        row("2024-03-01T08:00:00+00:00", "false"),
        row("2024-03-03T08:00:00+00:00", "false"),
    );
    let s = scan_history(text.as_bytes(), day(2024, 3, 10));
    assert_eq!(s.first_entry_date, Some(day(2024, 3, 1)));
    assert_eq!(s.last_entry_date, Some(day(2024, 3, 3)));
    assert!(!s.workout_logged_today);
}

#[test]
fn timestamps_are_dated_in_utc() {
    let text = format!("{}{}", HEADER, row("2024-03-10T23:30:00-05:00", "true"));
    let s = scan_history(text.as_bytes(), day(2024, 3, 11));
    assert_eq!(s.last_entry_date, Some(day(2024, 3, 11)));
    assert!(s.workout_logged_today);
}

#[test]
fn todays_workout_is_found() {
    let today = day(2024, 3, 10);
    let text = format!(
        "{}{}{}",
        HEADER,
        row("2024-03-10T07:00:00+00:00", "TRUE"),
        row("2024-03-10T12:00:00+00:00", "false"),
    );
    let s = scan_history(text.as_bytes(), today);
    assert!(s.workout_logged_today);
    assert_eq!(s.first_entry_date, Some(today));
    assert_eq!(s.last_entry_date, Some(today));
}

#[test]
fn yesterdays_workout_does_not_count_today() {
    let text = format!("{}{}", HEADER, row("2024-03-09T07:00:00+00:00", "true"));
    let s = scan_history(text.as_bytes(), day(2024, 3, 10));
    assert!(!s.workout_logged_today);
    assert_eq!(s.last_entry_date, Some(day(2024, 3, 9)));
}

#[test]
fn corrupted_row_between_valid_rows_is_skipped() {
    let text = format!(
        "{}{}{}{}",
        HEADER,
        row("2024-03-02T08:00:00+00:00", "false"),
        row("not-a-date", "true"),
        row("2024-03-04T08:00:00+00:00", "false"),
    );
    let s = scan_history(text.as_bytes(), day(2024, 3, 4));
    assert_eq!(s.first_entry_date, Some(day(2024, 3, 2)));
    assert_eq!(s.last_entry_date, Some(day(2024, 3, 4)));
    assert!(!s.workout_logged_today);
}

#[test]
fn unreadable_record_is_skipped() {
    let text = format!(
        "{}{}2024-03-01T08:00:00+00:00,short\n{}",
        HEADER,
        row("2024-03-02T08:00:00+00:00", "false"),
        row("2024-03-04T08:00:00+00:00", "false"),
    );
    let s = scan_history(text.as_bytes(), day(2024, 3, 4));
    assert_eq!(s.first_entry_date, Some(day(2024, 3, 2)));
    assert_eq!(s.last_entry_date, Some(day(2024, 3, 4)));
}

#[test]
fn repeated_header_is_skipped() {
    let text = format!(
        "{}{}{}{}",
        HEADER,
        row("2024-03-02T08:00:00+00:00", "false"),
        HEADER,
        row("2024-03-04T08:00:00+00:00", "false"),
    );
    let s = scan_history(text.as_bytes(), day(2024, 3, 4));
    assert_eq!(s.first_entry_date, Some(day(2024, 3, 2)));
    assert_eq!(s.last_entry_date, Some(day(2024, 3, 4)));
}

#[test]
fn row_day_reads_cells() {
    let cells = |v: &[&str]| v.iter().map(|c| c.to_string()).collect::<Vec<String>>();
    let today = day(2024, 3, 10);
    assert_eq!(row_day(&cells(&[])), None);
    assert_eq!(row_day(&cells(&["timestamp", "x"])), None);
    assert_eq!(row_day(&cells(&["garbage"])), None);
    assert_eq!(row_day(&cells(&["2024-03-10T08:00:00Z"])), Some((today, false)));
    let mut full = vec!["2024-03-10T08:00:00Z"; 10];
    full.push(" true ");
    assert_eq!(row_day(&cells(&full)), Some((today, true)));
}

#[test]
fn records_with_errors_are_passed_over() {
    let today = day(2024, 3, 10);
    let good = |ts: &str, w: &str| {
        let mut v = vec![ts.to_string(); 10];
        v.push(w.to_string());
        v.push(String::new());
        Some(v)
    };
    let records = vec![
        good("2024-03-08T08:00:00Z", "false"),
        None,
        good("2024-03-10T08:00:00Z", "true"),
    ];
    let s = scan_records(&records, today);
    assert_eq!(s.first_entry_date, Some(day(2024, 3, 8)));
    assert_eq!(s.last_entry_date, Some(today));
    assert!(s.workout_logged_today);
}

#[test]
fn summarize_folds_facts() {
    let s = summarize(&vec![Some((5, false)), None, Some((3, true)), Some((4, false))], 3);
    assert_eq!(s.first_entry_date, Some(3));
    assert_eq!(s.last_entry_date, Some(4));
    assert!(s.workout_logged_today);
    let mut t = ScanSummary::empty();
    t.record(9, true, 8);
    assert_eq!(t.first_entry_date, Some(9));
    assert!(!t.workout_logged_today);
}
