use quickload::progress_state::{ProgressState, Range};
use quickload::progress_state_reporter::{handle_progress_report, ranges_snapshot};

fn routine<Sample: Into<Range>>(
    samples: impl IntoIterator<Item = Sample>,
    expected: impl IntoIterator<Item = Sample>,
) {
    let mut state = ProgressState::default();

    for sample in samples {
        state.merge_update(sample.into());
    }

    let actual = state.ranges();
    let expected: Vec<Range> = expected.into_iter().map(Into::into).collect();

    assert_eq!(actual, expected);
}

#[test]
fn simple() {
    let samples = [(0, 1)];
    let expected = [(0, 1)];
    routine(samples, expected);
}

#[test]
fn separate() {
    let samples = [(0, 1), (3, 4)];
    let expected = [(0, 1), (3, 4)];
    routine(samples, expected);
}

#[test]
fn back_to_back() {
    // init -> ____
    // #___ -> #___
    // __#_ -> #_#_
    let samples = [(0, 1), (2, 3)];
    let expected = [(0, 1), (2, 3)];
    routine(samples, expected);
}

#[test]
fn back_to_back_reverse() {
    let samples = [(2, 3), (0, 1)];
    let expected = [(0, 1), (2, 3)];
    routine(samples, expected);
}

#[test]
fn overlap() {
    let samples = [(0, 1), (1, 2)];
    let expected = [(0, 2)];
    routine(samples, expected);
}

#[test]
fn same() {
    let samples = [(0, 1), (0, 1)];
    let expected = [(0, 1)];
    routine(samples, expected);
}

#[test]
fn same_twice() {
    let samples = [(0, 1), (0, 1), (0, 1)];
    let expected = [(0, 1)];
    routine(samples, expected);
}

#[test]
fn multi_overlap() {
    let samples = [(0, 1), (3, 4), (0, 4)];
    let expected = [(0, 4)];
    routine(samples, expected);
}

#[test]
fn zero() {
    let samples = [(0, 0), (1, 1)];
    let expected: [(u64, u64); 0] = [];
    routine(samples, expected);
}

#[test]
fn bridging_update_joins_neighbours() {
    routine([(0, 2), (5, 7), (2, 5)], [(0, 7)]);
}

#[test]
fn update_within_a_range_changes_nothing() {
    routine([(0, 10), (2, 5)], [(0, 10)]);
}

#[test]
fn update_containing_ranges_absorbs_them() {
    routine([(1, 2), (0, 4)], [(0, 4)]);
    routine([(1, 2), (5, 6), (0, 10)], [(0, 10)]);
}

#[test]
fn merging_twice_changes_nothing() {
    routine([(3, 6), (10, 12), (0, 11), (0, 11)], [(0, 12)]);
}

#[test]
fn merge_order_does_not_matter() {
    routine([(0, 2), (4, 6), (1, 5)], [(0, 6)]);
    routine([(1, 5), (4, 6), (0, 2)], [(0, 6)]);
}

#[test]
fn total_counts_covered_offsets() {
    let mut state = ProgressState::default();
    state.merge_update(Range { start: 0, end: 1 });
    state.merge_update(Range { start: 3, end: 4 });
    state.merge_update(Range { start: 0, end: 4 });
    assert_eq!(state.total(), 4);
    let mut state = ProgressState::default();
    state.merge_update(Range { start: 1, end: 2 });
    state.merge_update(Range { start: 0, end: 4 });
    assert_eq!(state.total(), 4);
}

#[test]
fn total_sums_the_range_sizes() {
    let mut state = ProgressState::default();
    state.merge_update(Range { start: 0, end: 3 });
    state.merge_update(Range { start: 10, end: 15 });
    assert_eq!(state.total(), 8);
    assert_eq!(ProgressState::default().total(), 0);
}

#[test]
fn range_includes_both_ends() {
    let range = Range { start: 2, end: 5 };
    assert!(!range.includes(1));
    assert!(range.includes(2));
    assert!(range.includes(5));
    assert!(!range.includes(6));
}

#[test]
fn range_merge_cases() {
    let a = Range { start: 2, end: 5 };
    assert_eq!(a.merge(&Range { start: 7, end: 9 }), None);
    assert_eq!(a.merge(&Range { start: 3, end: 4 }), Some(Range { start: 2, end: 5 }));
    assert_eq!(a.merge(&Range { start: 5, end: 9 }), Some(Range { start: 2, end: 9 }));
    assert_eq!(a.merge(&Range { start: 0, end: 2 }), Some(Range { start: 0, end: 5 }));
    assert_eq!(a.merge(&Range { start: 0, end: 9 }), Some(Range { start: 0, end: 9 }));
    assert_eq!(Range { start: 0, end: 9 }.merge(&a), Some(Range { start: 0, end: 9 }));
    assert_eq!(a.merge(&Range { start: 0, end: 1 }), None);
}

#[test]
fn range_from_pair() {
    assert_eq!(Range::from((4, 8)), Range { start: 4, end: 8 });
}

#[test]
fn progress_report_records_offset_and_size() {
    let mut state = ProgressState::default();
    handle_progress_report(&mut state, (10, 5));
    handle_progress_report(&mut state, (15, 5));
    handle_progress_report(&mut state, (0, 0));
    assert_eq!(state.ranges(), vec![Range { start: 10, end: 20 }]);
    let snapshot = ranges_snapshot(&state, 100);
    assert_eq!(snapshot.total_size, 100);
    assert_eq!(snapshot.ranges, vec![Range { start: 10, end: 20 }]);
}

#[test]
fn reports_are_recorded_in_canonical_form() {
    let mut state = ProgressState::default();
    for report in [(4, 2), (0, 1), (8, 3), (1, 2), (6, 1), (20, 0)] {
        handle_progress_report(&mut state, report);
    }
    let snapshot = ranges_snapshot(&state, 16);
    assert_eq!(
        snapshot.ranges,
        vec![Range { start: 0, end: 3 }, Range { start: 4, end: 7 }, Range { start: 8, end: 11 }]
    );
    assert_eq!(state.total(), 9);
}

#[test]
fn snapshots_between_reports_follow_the_reports() {
    let mut state = ProgressState::default();
    let mut replay = ProgressState::default();
    handle_progress_report(&mut state, (0, 2));
    let first = ranges_snapshot(&state, 10);
    handle_progress_report(&mut state, (5, 2));
    handle_progress_report(&mut state, (2, 3));
    let second = ranges_snapshot(&state, 10);
    handle_progress_report(&mut replay, (0, 2));
    assert_eq!(first.ranges, replay.ranges());
    handle_progress_report(&mut replay, (5, 2));
    handle_progress_report(&mut replay, (2, 3));
    assert_eq!(second.ranges, replay.ranges());
    assert_eq!(second.ranges, vec![Range { start: 0, end: 7 }]);
}
