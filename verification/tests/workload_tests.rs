use teamwork::config::TimeOff;
use teamwork::date::WorkDate;
use teamwork::service::TimeEntry;
use teamwork::workload::get_missing_entries;
use teamwork::workload::get_remaining_workload;
use teamwork::workload::save_time;
use teamwork::workload::PlannedEntry;

fn date(year: u32, month: u32, day: u32) -> WorkDate {
    WorkDate { year, month, day }
}

fn entry_on(d: WorkDate, hours: i32) -> TimeEntry {
    TimeEntry {
        id: "1".to_string(),
        description: "worked".to_string(),
        date: d,
        hours,
        project_id: "10".to_string(),
        project_name: "a project".to_string(),
        todo_list_id: "20".to_string(),
        todo_list_name: "a list".to_string(),
        todo_item_id: "30".to_string(),
        todo_item_name: "a task".to_string(),
    }
}

fn off_on(date: &str, hours: i32) -> TimeOff {
    TimeOff { date: date.to_string(), hours }
}

#[test]
fn quota_of_an_untouched_day_is_the_baseline() {
    let quota = get_remaining_workload(date(2020, 1, 20), &vec![], &vec![]);
    assert_eq!(quota, 8);
}

#[test]
fn quota_shrinks_with_recorded_entries() {
    let entries = vec![entry_on(date(2020, 1, 20), 5)];
    assert_eq!(get_remaining_workload(date(2020, 1, 20), &entries, &vec![]), 3);
}

#[test]
fn quota_ignores_entries_of_other_days() {
    let entries = vec![entry_on(date(2020, 1, 21), 5)];
    assert_eq!(get_remaining_workload(date(2020, 1, 20), &entries, &vec![]), 8);
}

#[test]
fn quota_is_floored_at_zero() {
    let entries = vec![entry_on(date(2020, 1, 20), 5), entry_on(date(2020, 1, 20), 6)];
    assert_eq!(get_remaining_workload(date(2020, 1, 20), &entries, &vec![]), 0);
}

#[test]
fn quota_shrinks_with_declared_time_off() {
    let offs = vec![off_on("2020-01-20", 4)];
    assert_eq!(get_remaining_workload(date(2020, 1, 20), &vec![], &offs), 4);
}

#[test]
fn time_off_matches_by_exact_date_string() {
    let offs = vec![off_on("2020-1-20", 4)];
    assert_eq!(get_remaining_workload(date(2020, 1, 20), &vec![], &offs), 8);
}

#[test]
fn quota_combines_entries_and_time_off() {
    let entries = vec![entry_on(date(2020, 1, 20), 3)];
    let offs = vec![off_on("2020-01-20", 2)];
    assert_eq!(get_remaining_workload(date(2020, 1, 20), &entries, &offs), 3);
}

#[test]
fn quota_is_a_pure_function_of_its_snapshot() {
    let entries = vec![entry_on(date(2020, 1, 20), 3), entry_on(date(2020, 1, 21), 1)];
    let offs = vec![off_on("2020-01-20", 2)];
    let first = get_remaining_workload(date(2020, 1, 20), &entries, &offs);
    let second = get_remaining_workload(date(2020, 1, 20), &entries, &offs);
    assert_eq!(first, second);
}

#[test]
fn no_gap_when_today_is_the_since_date() {
    let d = date(2020, 1, 20);
    assert_eq!(get_missing_entries(d, d, &vec![], &vec![]), 0);
}

#[test]
fn no_gap_when_the_since_date_is_in_the_future() {
    let since = date(2020, 1, 24);
    let today = date(2020, 1, 20);
    assert_eq!(get_missing_entries(since, today, &vec![], &vec![]), 0);
}

#[test]
fn gap_counts_eight_hours_per_working_day() {
    let since = date(2020, 1, 20);
    let today = date(2020, 1, 23);
    assert_eq!(get_missing_entries(since, today, &vec![], &vec![]), 24);
}

#[test]
fn gap_shrinks_by_declared_time_off() {
    let since = date(2020, 1, 20);
    let today = date(2020, 1, 23);
    let offs = vec![off_on("2020-01-21", 4)];
    assert_eq!(get_missing_entries(since, today, &vec![], &offs), 20);
}

#[test]
fn gap_skips_weekends() {
    let since = date(2020, 1, 24);
    let today = date(2020, 1, 28);
    assert_eq!(get_missing_entries(since, today, &vec![], &vec![]), 16);
}

#[test]
fn allocation_fills_two_whole_days() {
    let plan = save_time(date(2020, 1, 20), date(2020, 1, 22), 16, &vec![], &vec![]);
    assert_eq!(
        plan,
        vec![
            PlannedEntry { date: date(2020, 1, 20), hours: 8 },
            PlannedEntry { date: date(2020, 1, 21), hours: 8 },
        ]
    );
}

#[test]
fn allocation_uses_what_a_partial_day_leaves() {
    let entries = vec![entry_on(date(2020, 1, 20), 5)];
    let plan = save_time(date(2020, 1, 20), date(2020, 1, 22), 3, &entries, &vec![]);
    assert_eq!(plan, vec![PlannedEntry { date: date(2020, 1, 20), hours: 3 }]);
}

#[test]
fn allocation_crosses_a_weekend() {
    let plan = save_time(date(2020, 1, 17), date(2020, 1, 22), 16, &vec![], &vec![]);
    assert_eq!(
        plan,
        vec![
            PlannedEntry { date: date(2020, 1, 17), hours: 8 },
            PlannedEntry { date: date(2020, 1, 20), hours: 8 },
        ]
    );
}

#[test]
fn allocation_visits_a_non_working_start_date() {
    let plan = save_time(date(2020, 1, 18), date(2020, 1, 20), 8, &vec![], &vec![]);
    assert_eq!(plan, vec![PlannedEntry { date: date(2020, 1, 18), hours: 8 }]);
}

#[test]
fn allocation_skips_fully_booked_days() {
    let entries = vec![entry_on(date(2020, 1, 20), 8)];
    let plan = save_time(date(2020, 1, 20), date(2020, 1, 22), 8, &entries, &vec![]);
    assert_eq!(plan, vec![PlannedEntry { date: date(2020, 1, 21), hours: 8 }]);
}

#[test]
fn allocation_stops_at_today() {
    let plan = save_time(date(2020, 1, 20), date(2020, 1, 22), 100, &vec![], &vec![]);
    assert_eq!(
        plan,
        vec![
            PlannedEntry { date: date(2020, 1, 20), hours: 8 },
            PlannedEntry { date: date(2020, 1, 21), hours: 8 },
        ]
    );
}

#[test]
fn allocation_respects_time_off() {
    let offs = vec![off_on("2020-01-20", 8)];
    let plan = save_time(date(2020, 1, 20), date(2020, 1, 22), 8, &vec![], &offs);
    assert_eq!(plan, vec![PlannedEntry { date: date(2020, 1, 21), hours: 8 }]);
}

#[test]
fn splits_hours_into_days_and_remainder() {
    assert_eq!(teamwork::duration::days_and_hours(20), (2, 4));
    assert_eq!(teamwork::duration::days_and_hours(24), (3, 0));
    assert_eq!(teamwork::duration::days_and_hours(0), (0, 0));
    assert_eq!(teamwork::duration::days_and_hours(7), (0, 7));
}

#[test]
fn parses_compact_durations() {
    assert_eq!(teamwork::duration::parse_time_duration("8d4h"), Some(68));
    assert_eq!(teamwork::duration::parse_time_duration("2h"), Some(2));
    assert_eq!(teamwork::duration::parse_time_duration("3d"), Some(24));
}

#[test]
fn rejects_durations_with_neither_component() {
    assert_eq!(teamwork::duration::parse_time_duration("xyz"), None);
    assert_eq!(teamwork::duration::parse_time_duration(""), None);
    assert_eq!(teamwork::duration::parse_time_duration("8"), None);
    assert_eq!(teamwork::duration::parse_time_duration("d4h"), None);
}

#[test]
fn ignores_text_after_the_recognized_prefix() {
    assert_eq!(teamwork::duration::parse_time_duration("8d4hxyz"), Some(68));
    assert_eq!(teamwork::duration::parse_time_duration("2hextra"), Some(2));
}

#[test]
fn rejects_durations_beyond_the_result_type() {
    assert_eq!(teamwork::duration::parse_time_duration("99999999999h"), None);
    assert_eq!(teamwork::duration::parse_time_duration("268435456d"), None);
    assert_eq!(teamwork::duration::parse_time_duration("268435455d7h"), Some(2147483647));
}

#[test]
fn allocation_gives_a_day_its_whole_quota() {
    let plan = save_time(date(2020, 1, 20), date(2020, 1, 22), 3, &vec![], &vec![]);
    assert_eq!(plan, vec![PlannedEntry { date: date(2020, 1, 20), hours: 8 }]);
}

#[test]
fn allocation_crosses_a_month_boundary() {
    let plan = save_time(date(2020, 1, 31), date(2020, 2, 4), 16, &vec![], &vec![]);
    assert_eq!(
        plan,
        vec![
            PlannedEntry { date: date(2020, 1, 31), hours: 8 },
            PlannedEntry { date: date(2020, 2, 3), hours: 8 },
        ]
    );
}

#[test]
fn parses_zero_and_padded_durations() {
    assert_eq!(teamwork::duration::parse_time_duration("0d"), Some(0));
    assert_eq!(teamwork::duration::parse_time_duration("0h"), Some(0));
    assert_eq!(teamwork::duration::parse_time_duration("00012d"), Some(96));
}
