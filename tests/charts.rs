use statbot::graphing::draw::{self, split_stats};
use statbot::graphing::{fill_with_hold, fill_with_zero, max_time, uid_to_color};

#[test]
fn colors_of_user_ids() {
    assert_eq!(uid_to_color(0), (0, 0, 0));
    assert_eq!(uid_to_color(u64::MAX), (114, 93, 228));
    assert_eq!(uid_to_color(123456789012345678), (31, 154, 221));
    assert_eq!(draw::uid_to_color("123456789012345678"), Some((31, 154, 221)));
    assert_eq!(draw::uid_to_color("someone"), None);
}

#[test]
fn hold_fills_gaps_with_last_value() {
    let stats = vec![(1, vec![(11, 5), (13, 9)]), (2, vec![])];
    assert_eq!(
        fill_with_hold((10, 14), &stats),
        vec![
            (1, vec![(10, 0), (11, 5), (12, 5), (13, 9), (14, 9)]),
            (2, vec![(10, 0), (11, 0), (12, 0), (13, 0), (14, 0)]),
        ]
    );
}

#[test]
fn hold_takes_value_from_before_range() {
    let stats = vec![(1, vec![(5, 7), (12, 8)])];
    assert_eq!(fill_with_hold((10, 12), &stats), vec![(1, vec![(10, 7), (11, 7), (12, 8)])]);
}

#[test]
fn zero_fills_gaps_with_zero() {
    let stats = vec![(1, vec![(11, 5), (13, 9)])];
    assert_eq!(
        fill_with_zero((10, 14), &stats),
        vec![(1, vec![(10, 0), (11, 5), (12, 0), (13, 9), (14, 0)])]
    );
    assert_eq!(fill_with_zero((3, 2), &stats), vec![(1, vec![])]);
}

#[test]
fn largest_value_of_series() {
    assert_eq!(max_time(&vec![(1, vec![(1, 3), (2, 8)]), (2, vec![(1, 5)])]), Some(8));
    assert_eq!(max_time(&vec![(1, vec![])]), None);
    assert_eq!(max_time(&Vec::new()), None);
}

#[test]
fn largest_value_of_snapshots() {
    assert_eq!(draw::max_time(&vec![(1, vec![(1, 3)]), (2, vec![(4, 11), (5, 2)])]), Some(11));
    assert_eq!(draw::max_time(&vec![(1, vec![])]), None);
}

#[test]
fn snapshots_become_user_series() {
    let snaps = vec![(1, vec![(10, 5), (20, 6)]), (2, vec![(20, 7)]), (3, vec![(30, 1), (10, 8)])];
    assert_eq!(
        split_stats(&snaps),
        vec![(10, vec![(1, 5), (3, 8)]), (20, vec![(1, 6), (2, 7)]), (30, vec![(3, 1)])]
    );
}
