use vstd::prelude::*;

verus! {

/// Tri-state outcome of evaluating a predicate expression on one row of a
/// scanned batch: definitely true, definitely false, or unknown (null).
#[derive(Clone, Copy, PartialEq, Eq, Structural, Debug)]
pub enum RowFlag {
    True,
    False,
    Null,
}

/// A row is skipped by downstream scans unless its predicate outcome is a
/// definite `true`; a null outcome counts as skip.
pub open spec fn skip_of(f: RowFlag) -> bool {
    !(f is True)
}

/// Whether a row with the given flag is taken (read) rather than skipped.
pub fn row_is_taken(f: RowFlag) -> (r: bool)
    ensures
        r == !skip_of(f),
{
    matches!(f, RowFlag::True)
}

/// One boolean filter array: the predicate outcome for every row of one batch,
/// in row order.
#[derive(Clone, Debug)]
pub struct FilterArray {
    pub rows: Vec<RowFlag>,
}

impl View for FilterArray {
    type V = Seq<RowFlag>;

    open spec fn view(&self) -> Seq<RowFlag> {
        self.rows@
    }
}

/// Number of definite-true entries in a sequence of row flags.
pub open spec fn count_true(s: Seq<RowFlag>) -> int
    decreases s.len(),
{
    if s.len() == 0 {
        0
    } else {
        count_true(s.drop_last()) + (if s.last() is True { 1int } else { 0int })
    }
}

/// The true count of an array never exceeds its length.
pub proof fn lemma_count_true_bounds(s: Seq<RowFlag>)
    ensures
        0 <= count_true(s) <= s.len(),
    decreases s.len(),
{
    if s.len() > 0 {
        lemma_count_true_bounds(s.drop_last());
    }
}

impl FilterArray {
    /// Number of rows in this array.
    pub fn len(&self) -> (r: usize)
        ensures
            r == self@.len(),
    {
        self.rows.len()
    }

    /// Number of definite-true rows in this array.
    pub fn true_count(&self) -> (r: usize)
        ensures
            r == count_true(self@),
    {
        let mut count: usize = 0;
        let n: usize = self.rows.len();
        for i in 0..n
            invariant
                n == self@.len(),
                count == count_true(self@.take(i as int)),
                count <= i,
        {
            proof {
                assert(self@.take(i + 1).drop_last() =~= self@.take(i as int));
                assert(self@.take(i + 1).last() == self@[i as int]);
            }
            if matches!(self.rows[i], RowFlag::True) {
                count = count + 1;
            }
        }
        proof {
            assert(self@.take(n as int) =~= self@);
        }
        count
    }
}

/// All boolean filter arrays decoded from one source file, in batch read
/// order, together with that file's path (kept for reporting only).
#[derive(Clone, Debug)]
pub struct QueryFilters {
    pub file_name: String,
    pub filters: Vec<FilterArray>,
}

/// Total number of rows across a sequence of filter arrays.
pub open spec fn rows_of(filters: Seq<FilterArray>) -> int
    decreases filters.len(),
{
    if filters.len() == 0 {
        0
    } else {
        rows_of(filters.drop_last()) + filters.last()@.len()
    }
}

/// Total number of definite-true rows across a sequence of filter arrays.
pub open spec fn trues_of(filters: Seq<FilterArray>) -> int
    decreases filters.len(),
{
    if filters.len() == 0 {
        0
    } else {
        trues_of(filters.drop_last()) + count_true(filters.last()@)
    }
}

/// Across any collection of filter arrays, the total true count is
/// non-negative and never exceeds the total row count.
pub proof fn lemma_trues_le_rows(filters: Seq<FilterArray>)
    ensures
        0 <= trues_of(filters) <= rows_of(filters),
    decreases filters.len(),
{
    if filters.len() > 0 {
        lemma_trues_le_rows(filters.drop_last());
        lemma_count_true_bounds(filters.last()@);
    }
}

pub proof fn lemma_rows_of_take_succ(filters: Seq<FilterArray>, i: int)
    requires
        0 <= i < filters.len(),
    ensures
        rows_of(filters.take(i + 1)) == rows_of(filters.take(i)) + filters[i]@.len(),
{
    assert(filters.take(i + 1).drop_last() =~= filters.take(i));
    assert(filters.take(i + 1).last() == filters[i]);
}

pub proof fn lemma_trues_of_take_succ(filters: Seq<FilterArray>, i: int)
    requires
        0 <= i < filters.len(),
    ensures
        trues_of(filters.take(i + 1)) == trues_of(filters.take(i)) + count_true(filters[i]@),
{
    assert(filters.take(i + 1).drop_last() =~= filters.take(i));
    assert(filters.take(i + 1).last() == filters[i]);
}

/// Row totals only grow as more arrays of the collection are counted.
pub proof fn lemma_rows_of_take_le(filters: Seq<FilterArray>, i: int)
    requires
        0 <= i <= filters.len(),
    ensures
        rows_of(filters.take(i)) <= rows_of(filters),
    decreases filters.len() - i,
{
    if i == filters.len() {
        assert(filters.take(i) =~= filters);
    } else {
        lemma_rows_of_take_succ(filters, i);
        lemma_rows_of_take_le(filters, i + 1);
    }
}

/// Selectivity in hundredths of a percent, rounded to the nearest unit with
/// ties rounding up; exactly `0` when there are no rows at all.
pub open spec fn selectivity_of(trues: int, rows: int) -> int {
    if rows == 0 {
        0
    } else {
        (trues * 10000 + rows / 2) / rows
    }
}

/// Whenever the true count is between zero and the row count, the selectivity
/// lies between 0 and 100 percent (0 and 10000 hundredths).
pub proof fn lemma_selectivity_range(trues: int, rows: int)
    requires
        0 <= trues <= rows,
    ensures
        0 <= selectivity_of(trues, rows) <= 10000,
{
    if rows != 0 {
        let num = trues * 10000 + rows / 2;
        vstd::arithmetic::div_mod::lemma_div_pos_is_pos(rows, 2);
        vstd::arithmetic::div_mod::lemma_div_decreases(rows, 2);
        assert(0 <= trues * 10000 <= rows * 10000) by (nonlinear_arith)
            requires
                0 <= trues <= rows,
        ;
        assert(rows * 10000 + rows == rows * 10001) by (nonlinear_arith);
        vstd::arithmetic::div_mod::lemma_div_pos_is_pos(num, rows);
        vstd::arithmetic::div_mod::lemma_multiply_divide_lt(num, rows, 10001);
    }
}

/// A filter set with no arrays has no rows, no true rows, and selectivity
/// exactly zero: no division by zero takes place.
pub proof fn lemma_empty_set_stats(qf: QueryFilters)
    requires
        qf.filters@.len() == 0,
    ensures
        qf.spec_total_rows() == 0,
        qf.spec_total_true() == 0,
        selectivity_of(qf.spec_total_true(), qf.spec_total_rows()) == 0,
{
}

/// Selectivity in hundredths of a percent, computed from a true count and a
/// row count, as `selectivity_of` describes.
pub fn selectivity_value(trues: u64, rows: u64) -> (r: u64)
    requires
        trues <= rows,
    ensures
        r == selectivity_of(trues as int, rows as int),
        r <= 10000,
{
    if rows == 0 {
        return 0;
    }
    proof {
        lemma_selectivity_range(trues as int, rows as int);
    }
    let num: u128 = trues as u128 * 10000 + rows as u128 / 2;
    let sel: u128 = num / (rows as u128);
    sel as u64
}

impl QueryFilters {
    /// Total rows across all arrays of this set, as a mathematical integer.
    pub open spec fn spec_total_rows(self) -> int {
        rows_of(self.filters@)
    }

    /// Total definite-true rows across all arrays, as a mathematical integer.
    pub open spec fn spec_total_true(self) -> int {
        trues_of(self.filters@)
    }

    /// The file the filter arrays of this set were read from.
    pub fn file_name(&self) -> (r: &String)
        ensures
            r@ == self.file_name@,
    {
        &self.file_name
    }

    /// Number of filter arrays (batches) in this set.
    pub fn len(&self) -> (r: usize)
        ensures
            r == self.filters@.len(),
    {
        self.filters.len()
    }

    /// Total number of rows across all filter arrays of this set.
    #[verifier::loop_isolation(false)]
    pub fn total_rows(&self) -> (r: u64)
        requires
            self.spec_total_rows() <= u64::MAX,
        ensures
            r == self.spec_total_rows(),
    {
        let mut total: u64 = 0;
        let n: usize = self.filters.len();
        for i in 0..n
            invariant
                total == rows_of(self.filters@.take(i as int)),
        {
            proof {
                lemma_rows_of_take_succ(self.filters@, i as int);
                lemma_rows_of_take_le(self.filters@, i + 1);
            }
            total = total + self.filters[i].len() as u64;
        }
        proof {
            assert(self.filters@.take(n as int) =~= self.filters@);
        }
        total
    }

    /// Total number of definite-true rows across all filter arrays.
    #[verifier::loop_isolation(false)]
    pub fn total_true(&self) -> (r: u64)
        requires
            self.spec_total_rows() <= u64::MAX,
        ensures
            r == self.spec_total_true(),
    {
        let mut total: u64 = 0;
        let n: usize = self.filters.len();
        for i in 0..n
            invariant
                total == trues_of(self.filters@.take(i as int)),
                trues_of(self.filters@.take(i as int)) <= rows_of(self.filters@.take(i as int)),
        {
            proof {
                lemma_trues_of_take_succ(self.filters@, i as int);
                lemma_rows_of_take_succ(self.filters@, i as int);
                lemma_rows_of_take_le(self.filters@, i + 1);
                lemma_trues_le_rows(self.filters@.take(i + 1));
                lemma_count_true_bounds(self.filters@[i as int]@);
            }
            total = total + self.filters[i].true_count() as u64;
        }
        proof {
            assert(self.filters@.take(n as int) =~= self.filters@);
        }
        total
    }

    /// Selectivity of this set in hundredths of a percent: the share of rows
    /// whose predicate outcome is a definite `true`, scaled to a percentage
    /// with two decimal places and rounded half-up. A set with no rows has
    /// selectivity `0`.
    pub fn selectivity(&self) -> (r: u64)
        requires
            self.spec_total_rows() <= u64::MAX,
        ensures
            r == selectivity_of(self.spec_total_true(), self.spec_total_rows()),
            r <= 10000,
    {
        let rows: u64 = self.total_rows();
        let trues: u64 = self.total_true();
        proof {
            lemma_trues_le_rows(self.filters@);
        }
        selectivity_value(trues, rows)
    }
}

} // verus!
