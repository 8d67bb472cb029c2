use chrono::NaiveDate;
use statbot::split::{split_by_days, DaySpan};
use statbot::time::{Timestamp, LAST_SECOND_OF_DAY, MICROS_PER_DAY, MICROS_PER_SECOND};

fn day(y: i32, m: u32, d: u32) -> i32 {
    NaiveDate::from_ymd_opt(y, m, d).unwrap().to_epoch_days()
}

fn hms(h: u64, m: u64, s: u64) -> u64 {
    ((h * 60 + m) * 60 + s) * MICROS_PER_SECOND
}

fn at(day: i32, micros: u64) -> Timestamp {
    Timestamp { day, micros }
}

fn total(spans: &[DaySpan]) -> u64 {
    spans.iter().map(|s| s.end - s.start).sum()
}

#[test]
fn test_dur_split() {
    let start = at(day(2021, 6, 16), hms(12, 0, 0));
    let end = at(day(2021, 6, 18), hms(14, 0, 0));

    let times = split_by_days(start, end);

    assert_eq!(
        times,
        vec![
            DaySpan { day: day(2021, 6, 16), start: hms(12, 0, 0), end: hms(23, 59, 59) },
            DaySpan { day: day(2021, 6, 17), start: hms(0, 0, 0), end: hms(23, 59, 59) },
            DaySpan { day: day(2021, 6, 18), start: hms(0, 0, 0), end: hms(14, 0, 0) },
        ]
    );
}

#[test]
fn split_zero_length_span() {
    let t = at(day(2021, 6, 16), hms(8, 30, 0));
    let spans = split_by_days(t, t);
    assert_eq!(spans, vec![DaySpan { day: t.day, start: t.micros, end: t.micros }]);
    assert_eq!(total(&spans), 0);
}

#[test]
fn split_same_second_span() {
    let start = at(day(2021, 6, 16), hms(8, 30, 0) + 10);
    let end = at(day(2021, 6, 16), hms(8, 30, 0) + 999_999);
    let spans = split_by_days(start, end);
    assert_eq!(spans.len(), 1);
    assert_eq!(total(&spans), 999_989);
}

#[test]
fn split_same_day_total_is_span_length() {
    let start = at(day(2020, 2, 28), hms(1, 2, 3));
    let end = at(day(2020, 2, 28), hms(22, 0, 0));
    let spans = split_by_days(start, end);
    assert_eq!(spans.len(), 1);
    assert_eq!(total(&spans), hms(22, 0, 0) - hms(1, 2, 3));
}

#[test]
fn split_many_days_is_contiguous() {
    let start = at(day(2020, 2, 27), hms(18, 0, 0));
    let end = at(day(2020, 3, 2), hms(6, 0, 0));
    let spans = split_by_days(start, end);
    // 2020 is a leap year: Feb 27, 28, 29, Mar 1, 2.
    assert_eq!(spans.len(), 5);
    assert_eq!(spans[0].start, start.micros);
    assert_eq!(spans[4].end, end.micros);
    for w in spans.windows(2) {
        assert_eq!(w[1].day, w[0].day + 1);
        assert_eq!(w[0].end, LAST_SECOND_OF_DAY);
        assert_eq!(w[1].start, 0);
    }
    let span_len = (end.day - start.day) as u64 * MICROS_PER_DAY + end.micros - start.micros;
    assert_eq!(total(&spans) + 4 * MICROS_PER_SECOND, span_len);
}

#[test]
fn split_start_in_last_second_of_day() {
    let start = at(day(2021, 1, 1), LAST_SECOND_OF_DAY + 500_000);
    let end = at(day(2021, 1, 2), hms(0, 0, 1));
    let spans = split_by_days(start, end);
    assert_eq!(spans.len(), 2);
    assert_eq!(spans[0].start, spans[0].end);
    assert_eq!(spans[1], DaySpan { day: end.day, start: 0, end: hms(0, 0, 1) });
}

#[test]
fn timestamp_from_unix_micros_before_and_after_epoch() {
    let t = Timestamp::from_unix_micros(-1);
    assert_eq!(t, Timestamp { day: -1, micros: MICROS_PER_DAY - 1 });
    let t = Timestamp::from_unix_micros(MICROS_PER_DAY as i64 + 5);
    assert_eq!(t, Timestamp { day: 1, micros: 5 });
    let t = Timestamp::from_unix_micros(-(MICROS_PER_DAY as i64));
    assert_eq!(t, Timestamp { day: -1, micros: 0 });
    let t = Timestamp::from_unix_micros(i64::MIN);
    assert!(t.micros < MICROS_PER_DAY);
}

#[test]
fn now_is_after_2021() {
    let t = statbot::time::now();
    assert!(t.day > day(2021, 1, 1));
    assert!(t.micros < MICROS_PER_DAY);
}
