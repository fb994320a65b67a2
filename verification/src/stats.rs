use vstd::prelude::*;

use crate::filter::QueryFilters;
use crate::filter::lemma_trues_le_rows;
use crate::filter::rows_of;
use crate::filter::selectivity_of;
use crate::filter::trues_of;

verus! {

/// Aggregate statistics over every filter set read from one directory:
/// counts are summed across all sets before the one selectivity is computed,
/// so small files do not bias the percentage.
pub struct AggregateStats {
    /// Number of filter sets (files) aggregated.
    pub filter_sets: usize,
    /// Total rows across every set.
    pub total_rows: u64,
    /// Total definite-true rows across every set.
    pub total_true: u64,
    /// Overall selectivity in hundredths of a percent.
    pub selectivity: u64,
}

/// Total rows across a sequence of filter sets.
pub open spec fn all_rows_of(sets: Seq<QueryFilters>) -> int
    decreases sets.len(),
{
    if sets.len() == 0 {
        0
    } else {
        all_rows_of(sets.drop_last()) + rows_of(sets.last().filters@)
    }
}

/// Total definite-true rows across a sequence of filter sets.
pub open spec fn all_trues_of(sets: Seq<QueryFilters>) -> int
    decreases sets.len(),
{
    if sets.len() == 0 {
        0
    } else {
        all_trues_of(sets.drop_last()) + trues_of(sets.last().filters@)
    }
}

/// Across any collection of filter sets, the total true count is
/// non-negative and never exceeds the total row count.
pub proof fn lemma_all_trues_le_rows(sets: Seq<QueryFilters>)
    ensures
        0 <= all_trues_of(sets) <= all_rows_of(sets),
    decreases sets.len(),
{
    if sets.len() > 0 {
        lemma_all_trues_le_rows(sets.drop_last());
        lemma_trues_le_rows(sets.last().filters@);
    }
}

pub proof fn lemma_all_of_take_succ(sets: Seq<QueryFilters>, i: int)
    requires
        0 <= i < sets.len(),
    ensures
        all_rows_of(sets.take(i + 1)) == all_rows_of(sets.take(i)) + rows_of(sets[i].filters@),
        all_trues_of(sets.take(i + 1)) == all_trues_of(sets.take(i)) + trues_of(sets[i].filters@),
{
    assert(sets.take(i + 1).drop_last() =~= sets.take(i));
    assert(sets.take(i + 1).last() == sets[i]);
}

/// Row totals only grow as more sets of the collection are counted.
pub proof fn lemma_all_rows_of_take_le(sets: Seq<QueryFilters>, i: int)
    requires
        0 <= i <= sets.len(),
    ensures
        all_rows_of(sets.take(i)) <= all_rows_of(sets),
    decreases sets.len() - i,
{
    if i == sets.len() {
        assert(sets.take(i) =~= sets);
    } else {
        lemma_all_of_take_succ(sets, i);
        lemma_row_count_nonneg(sets[i]);
        lemma_all_rows_of_take_le(sets, i + 1);
    }
}

/// A single set never holds a negative number of rows.
pub proof fn lemma_row_count_nonneg(set: QueryFilters)
    ensures
        rows_of(set.filters@) >= 0,
{
    lemma_trues_le_rows(set.filters@);
}

/// Aggregate row and true counts across every filter set of a directory,
/// summing before dividing once for the overall selectivity.
#[verifier::loop_isolation(false)]
pub fn aggregate(sets: &Vec<QueryFilters>) -> (r: AggregateStats)
    requires
        all_rows_of(sets@) <= u64::MAX,
    ensures
        r.filter_sets == sets@.len(),
        r.total_rows == all_rows_of(sets@),
        r.total_true == all_trues_of(sets@),
        r.selectivity == selectivity_of(all_trues_of(sets@), all_rows_of(sets@)),
        r.selectivity <= 10000,
{
    let mut rows: u64 = 0;
    let mut trues: u64 = 0;
    let n: usize = sets.len();
    for i in 0..n
        invariant
            rows == all_rows_of(sets@.take(i as int)),
            trues == all_trues_of(sets@.take(i as int)),
            trues <= rows,
    {
        proof {
            lemma_all_of_take_succ(sets@, i as int);
            lemma_all_rows_of_take_le(sets@, i + 1);
            lemma_all_trues_le_rows(sets@.take(i + 1));
            lemma_trues_le_rows(sets@[i as int].filters@);
        }
        rows = rows + sets[i].total_rows();
        trues = trues + sets[i].total_true();
    }
    proof {
        assert(sets@.take(n as int) =~= sets@);
    }
    let selectivity: u64 = crate::filter::selectivity_value(trues, rows);
    AggregateStats { filter_sets: n, total_rows: rows, total_true: trues, selectivity }
}

} // verus!
