use statbot::aggregate::running_totals;
use statbot::model::{LogEntry, NewLogEntryOwned};
use statbot::stats::StatManager;
use statbot::store::{LogStore, StoreError};
use statbot::time::MICROS_PER_SECOND;

const S: u64 = MICROS_PER_SECOND;

fn new_row(user_id: u64, day: i32, start_s: u64, end_s: u64) -> NewLogEntryOwned {
    NewLogEntryOwned { user_id, day, online_time_start: start_s * S, online_time_end: end_s * S }
}

fn store_of(rows: &[NewLogEntryOwned]) -> Vec<LogEntry> {
    let mut store = LogStore::new();
    store.append(&rows.to_vec()).unwrap();
    store.rows().clone()
}

fn sorted<T: Ord + Clone>(v: &[T]) -> Vec<T> {
    let mut v = v.to_vec();
    v.sort();
    v
}

#[test]
fn running_totals_of_per_day_series() {
    let per_day = vec![(1, 3600 * S), (2, 1800 * S)];
    assert_eq!(running_totals(&per_day), vec![(1, 3600 * S), (2, 5400 * S)]);
}

#[test]
fn running_totals_of_empty_series() {
    assert_eq!(running_totals(&Vec::new()), Vec::new());
}

#[test]
fn totals_per_user() {
    let rows = store_of(&[
        new_row(1, 10, 0, 3600),
        new_row(2, 10, 100, 200),
        new_row(1, 11, 0, 60),
        new_row(3, 11, 50, 50),
    ]);
    let totals = StatManager::absolute_sum_time_iter(&rows);
    assert_eq!(sorted(&totals), vec![(1, 3660 * S), (2, 100 * S)]);
}

#[test]
fn totals_do_not_depend_on_insertion_order() {
    let batch = vec![new_row(1, 10, 0, 10), new_row(2, 10, 0, 20), new_row(1, 12, 5, 50)];
    let mut reversed = batch.clone();
    reversed.reverse();
    let a = StatManager::absolute_sum_time_iter(&store_of(&batch));
    let b = StatManager::absolute_sum_time_iter(&store_of(&reversed));
    assert_eq!(sorted(&a), sorted(&b));
    assert_eq!(sorted(&a), vec![(1, 55 * S), (2, 20 * S)]);
}

#[test]
fn per_day_and_running_series() {
    let rows = store_of(&[
        new_row(7, 12, 0, 1800),
        new_row(7, 10, 0, 3600),
        new_row(7, 11, 10, 10),
        new_row(8, 11, 0, 5),
    ]);
    let mut per_day = StatManager::time_per_day_iter(&rows);
    per_day.sort();
    assert_eq!(per_day, vec![(7, vec![(10, 3600 * S), (12, 1800 * S)]), (8, vec![(11, 5 * S)])]);
    let mut running = StatManager::absolute_sum_time_per_day_iter(&rows);
    running.sort();
    assert_eq!(running, vec![(7, vec![(10, 3600 * S), (12, 5400 * S)]), (8, vec![(11, 5 * S)])]);
}

#[test]
fn queries_on_empty_log() {
    let rows: Vec<LogEntry> = Vec::new();
    assert!(StatManager::absolute_sum_time_iter(&rows).is_empty());
    assert!(StatManager::time_per_day_iter(&rows).is_empty());
    assert!(StatManager::absolute_sum_time_per_day_iter(&rows).is_empty());
    assert_eq!(StatManager::date_range(&rows), None);
}

#[test]
fn date_range_spans_first_to_last_day() {
    let rows = store_of(&[new_row(1, 12, 0, 1), new_row(2, 9, 0, 1), new_row(1, 15, 0, 0)]);
    assert_eq!(StatManager::date_range(&rows), Some((9, 15)));
}

#[test]
fn store_assigns_ids_in_order() {
    let mut store = LogStore::new();
    store.append(&vec![new_row(1, 1, 0, 1), new_row(2, 1, 0, 1)]).unwrap();
    store.append(&vec![new_row(3, 2, 0, 1)]).unwrap();
    let ids: Vec<i32> = store.rows().iter().map(|r| r.id).collect();
    assert_eq!(ids, vec![1, 2, 3]);
    assert_eq!(store.rows()[2].user_id, 3);
}

#[test]
fn store_append_empty_batch() {
    let mut store = LogStore::new();
    assert_eq!(store.append(&Vec::new()), Ok(()));
    assert!(store.rows().is_empty());
    let _ = StoreError::IdsExhausted;
}

#[test]
fn query_test() {
    let rows = store_of(&[
        new_row(5, 100, 0, 600),
        new_row(5, 100, 1000, 1600),
        new_row(5, 102, 0, 60),
        new_row(6, 101, 0, 30),
    ]);
    let mut running = StatManager::absolute_sum_time_per_day_iter(&rows);
    running.sort();
    assert_eq!(running, vec![(5, vec![(100, 1200 * S), (102, 1260 * S)]), (6, vec![(101, 30 * S)])]);
}
