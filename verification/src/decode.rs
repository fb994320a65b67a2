use vstd::prelude::*;

use crate::filter::FilterArray;
use crate::filter::QueryFilters;
use crate::filter::RowFlag;

verus! {

/// One column of a decoded batch: either a boolean filter array, or a column
/// of some other type, recorded by the name of that type for reporting.
#[derive(Clone, Debug)]
pub enum RawColumn {
    Boolean(FilterArray),
    Other(String),
}

/// One decoded batch of a columnar stream: its columns, in schema order.
#[derive(Clone, Debug)]
pub struct RawBatch {
    pub columns: Vec<RawColumn>,
}

/// What made a batch violate the expected schema: a column count other than
/// one, or a single column of a non-boolean type.
#[derive(Clone, Debug, PartialEq, Eq)]
pub enum SchemaIssue {
    ColumnCount(usize),
    ColumnType(String),
}

/// Why decoding a filter file failed. Every variant names the offending file.
#[derive(Clone, Debug, PartialEq, Eq)]
pub enum DecodeError {
    /// The file could not be opened or read.
    IoError { file_name: String, message: String },
    /// The file is not a valid columnar batch stream, or a batch failed to
    /// decode mid-stream.
    FormatError { file_name: String, message: String },
    /// A batch did not hold exactly one boolean column.
    SchemaViolation { file_name: String, batch_index: usize, issue: SchemaIssue },
}

/// A batch meets the expected schema: exactly one column, of boolean type.
pub open spec fn batch_ok(b: RawBatch) -> bool {
    b.columns@.len() == 1 && b.columns@[0] is Boolean
}

/// The row flags of a column, empty for a non-boolean column.
pub open spec fn column_rows(c: RawColumn) -> Seq<RowFlag> {
    match c {
        RawColumn::Boolean(a) => a@,
        RawColumn::Other(_) => Seq::empty(),
    }
}

/// The type name recorded for a non-boolean column, empty otherwise.
pub open spec fn other_type_name(c: RawColumn) -> Seq<char> {
    match c {
        RawColumn::Boolean(_) => Seq::empty(),
        RawColumn::Other(name) => name@,
    }
}

/// The row flags of a batch's single column.
pub open spec fn batch_rows(b: RawBatch) -> Seq<RowFlag> {
    column_rows(b.columns@[0])
}

/// A fresh copy of a row-flag vector.
#[verifier::loop_isolation(false)]
fn copy_rows(rows: &Vec<RowFlag>) -> (r: Vec<RowFlag>)
    ensures
        r@ == rows@,
{
    let mut out: Vec<RowFlag> = Vec::new();
    let n: usize = rows.len();
    for i in 0..n
        invariant
            out@ == rows@.take(i as int),
    {
        out.push(rows[i]);
        proof {
            assert(rows@.take(i + 1) =~= rows@.take(i as int).push(rows@[i as int]));
        }
    }
    proof {
        assert(rows@.take(n as int) =~= rows@);
    }
    out
}

impl QueryFilters {
    /// Assemble a filter set from the decoded batches of one file, checking
    /// every batch against the expected schema.
    ///
    /// Succeeds exactly when every batch holds exactly one boolean column,
    /// keeping the batches' arrays in read order. Otherwise nothing is kept
    /// and the error names the file, the first offending batch, and whether
    /// its column count or its column type was wrong.
    #[verifier::loop_isolation(false)]
    pub fn try_new(file_name: String, batches: Vec<RawBatch>) -> (r: Result<
        QueryFilters,
        DecodeError,
    >)
        ensures
            match r {
                Ok(qf) => {
                    &&& forall|i: int| 0 <= i < batches@.len() ==> #[trigger] batch_ok(batches@[i])
                    &&& qf.file_name@ == file_name@
                    &&& qf.filters@.len() == batches@.len()
                    &&& forall|i: int|
                        0 <= i < batches@.len() ==> (#[trigger] qf.filters@[i])@ == batch_rows(
                            batches@[i],
                        )
                },
                Err(e) => e matches DecodeError::SchemaViolation {
                    file_name: f,
                    batch_index: k,
                    issue,
                } && {
                    &&& f@ == file_name@
                    &&& 0 <= k < batches@.len()
                    &&& !batch_ok(batches@[k as int])
                    &&& forall|j: int| 0 <= j < k ==> #[trigger] batch_ok(batches@[j])
                    &&& if batches@[k as int].columns@.len() != 1 {
                        issue == SchemaIssue::ColumnCount(
                            batches@[k as int].columns@.len() as usize,
                        )
                    } else {
                        issue matches SchemaIssue::ColumnType(t) && t@ == other_type_name(
                            batches@[k as int].columns@[0],
                        )
                    }
                },
            },
    {
        let mut filters: Vec<FilterArray> = Vec::new();
        let n: usize = batches.len();
        for k in 0..n
            invariant
                filters@.len() == k,
                forall|j: int| 0 <= j < k ==> #[trigger] batch_ok(batches@[j]),
                forall|j: int|
                    0 <= j < k ==> (#[trigger] filters@[j])@ == batch_rows(batches@[j]),
        {
            let b: &RawBatch = &batches[k];
            if b.columns.len() != 1 {
                return Err(DecodeError::SchemaViolation {
                    file_name,
                    batch_index: k,
                    issue: SchemaIssue::ColumnCount(b.columns.len()),
                });
            }
            match &b.columns[0] {
                RawColumn::Boolean(a) => {
                    filters.push(FilterArray { rows: copy_rows(&a.rows) });
                },
                RawColumn::Other(name) => {
                    return Err(DecodeError::SchemaViolation {
                        file_name,
                        batch_index: k,
                        issue: SchemaIssue::ColumnType(name.clone()),
                    });
                },
            }
        }
        Ok(QueryFilters { file_name, filters })
    }
}

} // verus!
