use statbot::model::NewLogEntryOwned;
use statbot::stats::StatManager;
use statbot::time::{Timestamp, LAST_SECOND_OF_DAY, MICROS_PER_SECOND};

const HOUR: u64 = 3600 * MICROS_PER_SECOND;

fn at(day: i32, micros: u64) -> Timestamp {
    Timestamp { day, micros }
}

fn row(user_id: u64, day: i32, start: u64, end: u64) -> NewLogEntryOwned {
    NewLogEntryOwned { user_id, day, online_time_start: start, online_time_end: end }
}

#[test]
fn online_twice_keeps_first_start() {
    let mut m = StatManager::new("postgres://localhost/stats");
    assert!(m.mark_online(7, at(100, HOUR)));
    assert!(!m.mark_online(7, at(100, 2 * HOUR)));
    assert_eq!(m.sessions().len(), 1);
    assert_eq!(m.sessions()[0].start, at(100, HOUR));
    assert_eq!(m.db_url(), "postgres://localhost/stats");
}

#[test]
fn offline_without_session_is_ignored() {
    let mut m = StatManager::new("db");
    assert!(m.mark_online(1, at(5, 0)));
    assert_eq!(m.mark_offline(2, at(5, HOUR)), None);
    assert_eq!(m.sessions().len(), 1);
    assert_eq!(m.mark_offline(1, at(5, HOUR)), Some(vec![row(1, 5, 0, HOUR)]));
    assert_eq!(m.mark_offline(1, at(5, 2 * HOUR)), None);
    assert!(m.sessions().is_empty());
}

#[test]
fn offline_across_midnight_gives_a_row_per_day() {
    let mut m = StatManager::new("db");
    m.mark_online(3, at(10, 22 * HOUR));
    let rows = m.mark_offline(3, at(11, 2 * HOUR)).unwrap();
    assert_eq!(rows, vec![row(3, 10, 22 * HOUR, LAST_SECOND_OF_DAY), row(3, 11, 0, 2 * HOUR)]);
}

#[test]
fn offline_before_start_closes_at_start() {
    let mut m = StatManager::new("db");
    m.mark_online(3, at(10, 5 * HOUR));
    let rows = m.mark_offline(3, at(10, 4 * HOUR)).unwrap();
    assert_eq!(rows, vec![row(3, 10, 5 * HOUR, 5 * HOUR)]);
}

#[test]
fn flush_twice_writes_nothing_the_second_time() {
    let mut m = StatManager::new("db");
    m.mark_online(1, at(20, HOUR));
    m.mark_online(2, at(20, 3 * HOUR));
    let now = at(20, 4 * HOUR);
    let rows = m.flush_stats(now);
    assert_eq!(rows, vec![row(1, 20, HOUR, 4 * HOUR), row(2, 20, 3 * HOUR, 4 * HOUR)]);
    m.commit_flush(now);
    assert!(m.flush_stats(now).is_empty());
    assert!(m.sessions().iter().all(|s| s.start == now));
}

#[test]
fn flush_then_later_flush_covers_only_the_new_part() {
    let mut m = StatManager::new("db");
    m.mark_online(1, at(20, HOUR));
    let first = at(20, 2 * HOUR);
    m.flush_stats(first);
    m.commit_flush(first);
    let rows = m.flush_stats(at(21, HOUR));
    assert_eq!(rows, vec![row(1, 20, 2 * HOUR, LAST_SECOND_OF_DAY), row(1, 21, 0, HOUR)]);
}

#[test]
fn flush_without_commit_changes_nothing() {
    let mut m = StatManager::new("db");
    m.mark_online(9, at(1, 0));
    let a = m.flush_stats(at(1, HOUR));
    let b = m.flush_stats(at(1, HOUR));
    assert_eq!(a, b);
    assert_eq!(m.sessions()[0].start, at(1, 0));
}

#[test]
fn flush_skips_session_started_after_flush_time() {
    let mut m = StatManager::new("db");
    m.mark_online(4, at(30, 5 * HOUR));
    assert!(m.flush_stats(at(30, 4 * HOUR)).is_empty());
    m.commit_flush(at(30, 4 * HOUR));
    assert_eq!(m.sessions()[0].start, at(30, 5 * HOUR));
}

#[test]
fn now_online_then_offline() {
    let mut m = StatManager::new("db");
    assert!(m.user_now_online(11));
    assert!(!m.user_now_online(11));
    let rows = m.user_now_offline(11).unwrap();
    assert!(!rows.is_empty());
    assert!(rows.iter().all(|r| r.user_id == 11 && r.online_time_start <= r.online_time_end));
    assert_eq!(m.user_now_offline(11), None);
}
