use chrono::NaiveDate;
use statbot::model::NewLogEntryOwned;
use statbot::snapshot::{
    available_datapoint_range, get_stat_impl, import_rows, parse_user_id, read_stats, snapshot_day,
};
use statbot::time::{LAST_SECOND_OF_DAY, MICROS_PER_SECOND};

fn day(y: i32, m: u32, d: u32) -> i32 {
    NaiveDate::from_ymd_opt(y, m, d).unwrap().to_epoch_days()
}

fn file(name: &str, text: &str) -> (String, String) {
    (name.to_string(), text.to_string())
}

#[test]
fn user_ids_in_decimal() {
    assert_eq!(parse_user_id("42"), Some(42));
    assert_eq!(parse_user_id("+42"), Some(42));
    assert_eq!(parse_user_id("007"), Some(7));
    assert_eq!(parse_user_id("18446744073709551615"), Some(u64::MAX));
    assert_eq!(parse_user_id("18446744073709551616"), None);
    assert_eq!(parse_user_id(""), None);
    assert_eq!(parse_user_id("+"), None);
    assert_eq!(parse_user_id("4a"), None);
    assert_eq!(parse_user_id("-1"), None);
    assert_eq!(parse_user_id(" 1"), None);
}

#[test]
fn snapshot_records_skip_bad_ids() {
    let recs = get_stat_impl(r#"{"123": 60, "abc": 5, "+7": 9}"#).unwrap();
    assert_eq!(recs, vec![(7, 9), (123, 60)]);
}

#[test]
fn snapshot_later_member_of_same_user_wins() {
    let recs = get_stat_impl(r#"{"07": 1, "7": 2}"#).unwrap();
    assert_eq!(recs, vec![(7, 2)]);
}

#[test]
fn malformed_snapshot_is_no_state() {
    assert_eq!(get_stat_impl("not json"), None);
    assert_eq!(get_stat_impl(r#"{"1": -5}"#), None);
    assert_eq!(get_stat_impl("[1, 2]"), None);
    assert_eq!(get_stat_impl("{}"), Some(Vec::new()));
}

#[test]
fn snapshot_file_names() {
    assert_eq!(snapshot_day("stats_2021-06-16.json"), Some(day(2021, 6, 16)));
    assert_eq!(snapshot_day("stats_2021-06-16.txt"), None);
    assert_eq!(snapshot_day("stats_2021-13-16.json"), None);
    assert_eq!(snapshot_day("other_2021-06-16.json"), None);
    assert_eq!(snapshot_day("stats_.json"), None);
}

#[test]
fn read_stats_turns_running_totals_into_days() {
    let files = vec![
        file("stats_2021-06-17.json", r#"{"1": 160, "2": 40, "3": 10}"#),
        file("notes.txt", "x"),
        file("stats_2021-06-16.json", r#"{"1": 100, "2": 50}"#),
        file("stats_2021-06-19.json", r#"{"1": 200}"#),
        file("stats_2021-06-20.json", "broken"),
    ];
    let stats = read_stats(&files);
    assert_eq!(
        stats,
        vec![
            (day(2021, 6, 17), vec![(1, 60), (2, 0), (3, 10)]),
            (day(2021, 6, 16), vec![(1, 100), (2, 50)]),
            (day(2021, 6, 19), vec![(1, 200)]),
        ]
    );
}

#[test]
fn read_stats_keeps_first_file_of_a_day() {
    let files = vec![
        file("stats_2021-06-16.json", r#"{"1": 5}"#),
        file("stats_2021-06-16_copy.json", r#"{"1": 9}"#),
    ];
    assert_eq!(read_stats(&files), vec![(day(2021, 6, 16), vec![(1, 5)])]);
}

#[test]
fn import_makes_rows_from_midnight() {
    let snaps = vec![(3, vec![(1, 60), (2, 0)]), (4, vec![(1, 90_000)])];
    assert_eq!(
        import_rows(&snaps),
        vec![
            NewLogEntryOwned { user_id: 1, day: 3, online_time_start: 0, online_time_end: 60 * MICROS_PER_SECOND },
            NewLogEntryOwned { user_id: 1, day: 4, online_time_start: 0, online_time_end: LAST_SECOND_OF_DAY },
        ]
    );
}

#[test]
fn datapoint_range_from_file_stems() {
    let stems = vec![
        "stats_2021-06-16".to_string(),
        "stats_2021-06-18".to_string(),
        "junk".to_string(),
        "stats_nonsense".to_string(),
    ];
    let today = day(2022, 1, 1);
    assert_eq!(available_datapoint_range(&stems, today), (day(2021, 6, 16), day(2021, 6, 18)));
    assert_eq!(available_datapoint_range(&Vec::new(), today), (today, 0));
}

#[test]
fn test_stats() {
    let files = vec![
        file("stats_2021-03-01.json", r#"{"100": 3600}"#),
        file("stats_2021-03-02.json", r#"{"100": 5400, "200": 60}"#),
    ];
    let st = read_stats(&files);
    assert_eq!(
        st,
        vec![(day(2021, 3, 1), vec![(100, 3600)]), (day(2021, 3, 2), vec![(100, 1800), (200, 60)])]
    );
}
