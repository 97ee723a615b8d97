use chrono::{Datelike, NaiveDate};
use daily_metrics::{header_cells, plan_entry, scan_history, EntryPlan, LogEntry, Ratings, ScanSummary};

const HEADER: &str = "timestamp,day_count,sleep_hours,sleep_quality,sleepiness,zonkedness,energy,strength,focus,intelligence,workout_today,remarks\n";

fn day(y: i32, m: u32, d: u32) -> i32 {
    NaiveDate::from_ymd_opt(y, m, d).unwrap().num_days_from_ce()
}

fn ratings() -> Ratings {
    Ratings { sleepiness: 3, zonkedness: 4, energy: 5, strength: 6, focus: 7, intelligence: 8 }
}

#[test]
fn no_history_plans_first_entry_on_day_one() {
    let p = plan_entry(day(2024, 3, 10), &ScanSummary::empty());
    assert_eq!(p, EntryPlan { is_first_entry_today: true, day_count: 1, ask_workout: true });
}

#[test]
fn same_day_history_plans_follow_up() {
    let today = day(2024, 3, 10);
    let text = format!("{}2024-03-10T08:00:00+00:00,1,7,8,3,4,5,6,7,8,false,\n", HEADER);
    let p = plan_entry(today, &scan_history(text.as_bytes(), today));
    assert!(!p.is_first_entry_today);
    assert_eq!(p.day_count, 1);
    assert!(p.ask_workout);
}

#[test]
fn yesterday_history_plans_day_two() {
    let today = day(2024, 3, 10);
    let text = format!("{}2024-03-09T21:00:00+00:00,1,7,8,3,4,5,6,7,8,false,\n", HEADER);
    let p = plan_entry(today, &scan_history(text.as_bytes(), today));
    assert_eq!(p.day_count, 2);
    assert!(p.is_first_entry_today);
    assert!(p.ask_workout);
}

#[test]
fn day_count_spans_month() {
    let s = ScanSummary {
        first_entry_date: Some(day(2024, 2, 10)),
        last_entry_date: Some(day(2024, 3, 9)),
        workout_logged_today: false,
    };
    assert_eq!(plan_entry(day(2024, 3, 10), &s).day_count, 30);
}

#[test]
fn logged_workout_is_kept_and_sleep_dropped() {
    let today = day(2024, 3, 10);
    let text = format!("{}2024-03-10T07:00:00+00:00,1,7,8,3,4,5,6,7,8,true,\n", HEADER);
    let summary = scan_history(text.as_bytes(), today);
    assert!(summary.workout_logged_today);
    let p = plan_entry(today, &summary);
    assert!(!p.ask_workout);
    assert!(!p.is_first_entry_today);
    let e = LogEntry::build(
        &p,
        "2024-03-10T18:00:00+00:00".to_string(),
        Some(70),
        Some(80),
        ratings(),
        false,
        String::new(),
    );
    assert!(e.workout_today);
    assert_eq!(e.sleep_hours, None);
    assert_eq!(e.sleep_quality, None);
    assert_eq!(e.day_count, 1);
    let cells = e.cells();
    assert_eq!(cells[2], "");
    assert_eq!(cells[3], "");
    assert_eq!(cells[10], "true");
}

#[test]
fn workout_answer_used_when_asked() {
    let p = EntryPlan { is_first_entry_today: true, day_count: 4, ask_workout: true };
    let e = LogEntry::build(&p, "t".to_string(), Some(75), Some(60), ratings(), false, "x".to_string());
    assert!(!e.workout_today);
    assert_eq!(e.sleep_hours, Some(75));
    assert_eq!(e.sleep_quality, Some(60));
    assert_eq!(e.remarks, "x");
}

#[test]
fn first_entry_into_new_file() {
    let today = day(2024, 3, 10);
    let p = plan_entry(today, &ScanSummary::empty());
    let e = LogEntry::build(
        &p,
        "2024-03-10T08:15:00+00:00".to_string(),
        Some(70),
        Some(80),
        ratings(),
        true,
        "felt good".to_string(),
    );
    assert_eq!(e.day_count, 1);
    assert!(e.workout_today);
    let bytes = e.append_bytes(false).unwrap();
    let text = String::from_utf8(bytes.clone()).unwrap();
    assert_eq!(
        text,
        format!("{}2024-03-10T08:15:00+00:00,1,7,8,3,4,5,6,7,8,true,felt good\n", HEADER)
    );
    assert_eq!(text.lines().count(), 2);
    let again = scan_history(&bytes, today);
    assert_eq!(again.first_entry_date, Some(today));
    assert_eq!(again.last_entry_date, Some(today));
    assert!(again.workout_logged_today);
}

#[test]
fn appended_row_rescans_to_its_date() {
    let today = day(2024, 3, 10);
    let mut file = format!("{}2024-03-08T08:00:00+00:00,1,7,8,3,4,5,6,7,8,false,\n", HEADER).into_bytes();
    let p = plan_entry(today, &scan_history(&file, today));
    assert_eq!(p.day_count, 3);
    let e = LogEntry::build(
        &p,
        "2024-03-10T20:00:00+00:00".to_string(),
        Some(65),
        Some(75),
        ratings(),
        true,
        "late, \"quoted\"".to_string(),
    );
    let row = e.append_bytes(true).unwrap();
    assert!(!String::from_utf8(row.clone()).unwrap().starts_with("timestamp"));
    file.extend(row);
    let s = scan_history(&file, today);
    assert_eq!(s.first_entry_date, Some(day(2024, 3, 8)));
    assert_eq!(s.last_entry_date, Some(today));
    assert!(s.workout_logged_today);
}

#[test]
fn header_has_twelve_columns() {
    let h = header_cells();
    assert_eq!(h.join(",") + "\n", HEADER);
}

#[test]
fn negative_day_count_is_written_signed() {
    let p = EntryPlan { is_first_entry_today: true, day_count: -2, ask_workout: true };
    let e = LogEntry::build(&p, "t".to_string(), None, None, ratings(), false, String::new());
    let cells = e.cells();
    assert_eq!(cells[1], "-2");
    assert_eq!(cells[2], "");
    assert_eq!(cells[10], "false");
    assert_eq!(cells[11], "");
}
