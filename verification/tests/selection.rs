use filter_stats::FilterArray;
use filter_stats::QueryFilters;
use filter_stats::RowFlag;
use filter_stats::Segment;
use filter_stats::selection::expand_selection;
use filter_stats::selection::selection_stats;

fn array_of(bits: &[bool]) -> FilterArray {
    let rows: Vec<RowFlag> = bits
        .iter()
        .map(|b| if *b { RowFlag::True } else { RowFlag::False })
        .collect();
    FilterArray { rows }
}

fn set_of(arrays: Vec<FilterArray>) -> QueryFilters {
    QueryFilters { file_name: "f".to_string(), filters: arrays }
}

fn assert_round_trip(qf: &QueryFilters) {
    let segments = qf.row_selection();
    let expanded = expand_selection(&segments);
    assert_eq!(expanded, qf.skip_flags());
    // No two adjacent segments share a skip value; every segment is non-empty.
    for pair in segments.windows(2) {
        assert_ne!(pair[0].skip, pair[1].skip);
    }
    for s in &segments {
        assert!(s.row_count >= 1);
    }
    assert!(segments.len() as u64 <= qf.total_rows());
}

#[test]
fn selection_scenario_ten_rows() {
    let qf = set_of(vec![array_of(&[
        true, true, false, false, false, true, false, false, false, false,
    ])]);
    let segments = qf.row_selection();
    assert_eq!(
        segments,
        vec![
            Segment { skip: false, row_count: 2 },
            Segment { skip: true, row_count: 3 },
            Segment { skip: false, row_count: 1 },
            Segment { skip: true, row_count: 4 },
        ]
    );
    assert_round_trip(&qf);
}

#[test]
fn runs_merge_across_array_boundaries() {
    let qf = set_of(vec![
        array_of(&[true, true]),
        array_of(&[true, false]),
        array_of(&[false]),
    ]);
    let segments = qf.row_selection();
    assert_eq!(
        segments,
        vec![
            Segment { skip: false, row_count: 3 },
            Segment { skip: true, row_count: 2 },
        ]
    );
    assert_round_trip(&qf);
}

#[test]
fn empty_set_yields_no_segments() {
    let qf = set_of(vec![]);
    assert_eq!(qf.row_selection(), vec![]);
}

#[test]
fn zero_length_arrays_yield_no_segments() {
    let qf = set_of(vec![array_of(&[]), array_of(&[])]);
    assert_eq!(qf.row_selection(), vec![]);
    assert_round_trip(&qf);
}

#[test]
fn all_true_set_yields_one_take_segment() {
    let qf = set_of(vec![array_of(&[true; 7]), array_of(&[true; 3])]);
    let segments = qf.row_selection();
    assert_eq!(segments, vec![Segment { skip: false, row_count: 10 }]);
    assert_round_trip(&qf);
}

#[test]
fn all_false_set_yields_one_skip_segment() {
    let qf = set_of(vec![array_of(&[false; 4])]);
    let segments = qf.row_selection();
    assert_eq!(segments, vec![Segment { skip: true, row_count: 4 }]);
    assert_round_trip(&qf);
}

#[test]
fn null_rows_are_skipped() {
    let qf = set_of(vec![FilterArray {
        rows: vec![RowFlag::True, RowFlag::Null, RowFlag::False, RowFlag::True],
    }]);
    let segments = qf.row_selection();
    assert_eq!(
        segments,
        vec![
            Segment { skip: false, row_count: 1 },
            Segment { skip: true, row_count: 2 },
            Segment { skip: false, row_count: 1 },
        ]
    );
    assert_eq!(qf.skip_flags(), vec![false, true, true, false]);
}

#[test]
fn alternating_rows_reach_the_segment_count_bound() {
    // Segment count equals row count exactly when adjacent rows all differ.
    let qf = set_of(vec![array_of(&[true, false, true, false])]);
    let segments = qf.row_selection();
    assert_eq!(segments.len(), 4);
    assert_round_trip(&qf);
}

#[test]
fn round_trip_with_mixed_arrays() {
    let qf = set_of(vec![
        array_of(&[]),
        array_of(&[true]),
        array_of(&[true, true, false]),
        array_of(&[]),
        array_of(&[false, false]),
        array_of(&[true]),
    ]);
    assert_round_trip(&qf);
    assert_eq!(
        qf.skip_flags(),
        vec![false, false, false, true, true, true, false]
    );
}

#[test]
fn selection_stats_split_taken_and_skipped() {
    let segments = vec![
        Segment { skip: false, row_count: 2 },
        Segment { skip: true, row_count: 3 },
        Segment { skip: false, row_count: 1 },
        Segment { skip: true, row_count: 4 },
    ];
    let (taken, skipped) = selection_stats(&segments);
    assert_eq!(taken, 3);
    assert_eq!(skipped, 7);
}

#[test]
fn expand_selection_repeats_each_segment() {
    let segments = vec![
        Segment { skip: true, row_count: 2 },
        Segment { skip: false, row_count: 1 },
    ];
    assert_eq!(expand_selection(&segments), vec![true, true, false]);
}
