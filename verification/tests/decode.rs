use filter_stats::DecodeError;
use filter_stats::FilterArray;
use filter_stats::QueryFilters;
use filter_stats::RawBatch;
use filter_stats::RawColumn;
use filter_stats::RowFlag;
use filter_stats::SchemaIssue;

fn bool_batch(bits: &[bool]) -> RawBatch {
    let rows: Vec<RowFlag> = bits
        .iter()
        .map(|b| if *b { RowFlag::True } else { RowFlag::False })
        .collect();
    RawBatch { columns: vec![RawColumn::Boolean(FilterArray { rows })] }
}

#[test]
fn decodes_boolean_batches_in_order() {
    let batches = vec![bool_batch(&[true, false]), bool_batch(&[false])];
    let qf = QueryFilters::try_new("f".to_string(), batches).unwrap();
    assert_eq!(qf.file_name(), "f");
    assert_eq!(qf.len(), 2);
    assert_eq!(qf.total_rows(), 3);
    assert_eq!(qf.total_true(), 1);
    assert_eq!(qf.filters[0].rows, vec![RowFlag::True, RowFlag::False]);
    assert_eq!(qf.filters[1].rows, vec![RowFlag::False]);
}

#[test]
fn file_with_zero_batches_yields_empty_set() {
    let qf = QueryFilters::try_new("empty".to_string(), vec![]).unwrap();
    assert_eq!(qf.len(), 0);
    assert_eq!(qf.total_rows(), 0);
    assert_eq!(qf.selectivity(), 0);
}

#[test]
fn second_batch_with_two_columns_is_a_schema_violation() {
    let two_columns = RawBatch {
        columns: vec![
            RawColumn::Boolean(FilterArray { rows: vec![RowFlag::True] }),
            RawColumn::Boolean(FilterArray { rows: vec![RowFlag::False] }),
        ],
    };
    let batches = vec![bool_batch(&[true]), two_columns];
    let err = QueryFilters::try_new("f".to_string(), batches).unwrap_err();
    assert_eq!(
        err,
        DecodeError::SchemaViolation {
            file_name: "f".to_string(),
            batch_index: 1,
            issue: SchemaIssue::ColumnCount(2),
        }
    );
}

#[test]
fn batch_with_zero_columns_is_a_schema_violation() {
    let batches = vec![RawBatch { columns: vec![] }];
    let err = QueryFilters::try_new("f".to_string(), batches).unwrap_err();
    assert_eq!(
        err,
        DecodeError::SchemaViolation {
            file_name: "f".to_string(),
            batch_index: 0,
            issue: SchemaIssue::ColumnCount(0),
        }
    );
}

#[test]
fn non_boolean_column_is_a_schema_violation() {
    let batches = vec![
        bool_batch(&[true]),
        RawBatch { columns: vec![RawColumn::Other("Int64".to_string())] },
    ];
    let err = QueryFilters::try_new("f".to_string(), batches).unwrap_err();
    assert_eq!(
        err,
        DecodeError::SchemaViolation {
            file_name: "f".to_string(),
            batch_index: 1,
            issue: SchemaIssue::ColumnType("Int64".to_string()),
        }
    );
}

#[test]
fn decoding_fails_atomically_on_the_first_bad_batch() {
    // Nothing of the valid prefix is kept once a later batch is malformed.
    let batches = vec![
        bool_batch(&[true, true]),
        RawBatch { columns: vec![] },
        bool_batch(&[false]),
    ];
    let result = QueryFilters::try_new("f".to_string(), batches);
    match result {
        Err(DecodeError::SchemaViolation { batch_index, .. }) => assert_eq!(batch_index, 1),
        other => panic!("expected a schema violation, got {:?}", other),
    }
}
