use vstd::prelude::*;

use crate::filter::FilterArray;
use crate::filter::QueryFilters;
use crate::filter::RowFlag;
use crate::filter::lemma_rows_of_take_le;
use crate::filter::lemma_rows_of_take_succ;
use crate::filter::row_is_taken;
use crate::filter::rows_of;
use crate::filter::skip_of;

verus! {

/// One run-length unit of a row selection: skip (when `skip` is set) or take
/// the next `row_count` rows.
#[derive(Clone, Copy, PartialEq, Eq, Structural, Debug)]
pub struct Segment {
    pub skip: bool,
    pub row_count: u64,
}

/// The per-row skip flags described by one filter array, in row order.
pub open spec fn skips_of_array(a: FilterArray) -> Seq<bool> {
    a@.map_values(|f: RowFlag| skip_of(f))
}

/// The per-row skip flags described by a sequence of filter arrays: the
/// arrays' rows laid out one after another, in original order.
pub open spec fn skips_of(filters: Seq<FilterArray>) -> Seq<bool>
    decreases filters.len(),
{
    if filters.len() == 0 {
        Seq::empty()
    } else {
        skips_of(filters.drop_last()) + skips_of_array(filters.last())
    }
}

/// The rows covered by one segment: its skip flag, repeated.
pub open spec fn run_of(s: Segment) -> Seq<bool> {
    Seq::new(s.row_count as nat, |i: int| s.skip)
}

/// The row-by-row expansion of a sequence of segments.
pub open spec fn expand(segs: Seq<Segment>) -> Seq<bool>
    decreases segs.len(),
{
    if segs.len() == 0 {
        Seq::empty()
    } else {
        expand(segs.drop_last()) + run_of(segs.last())
    }
}

/// A well-formed selection: every segment covers at least one row and no two
/// adjacent segments share the same skip value.
pub open spec fn wf_selection(segs: Seq<Segment>) -> bool {
    &&& forall|i: int| 0 <= i < segs.len() ==> (#[trigger] segs[i]).row_count >= 1
    &&& forall|i: int| 1 <= i < segs.len() ==> (#[trigger] segs[i]).skip != segs[i - 1].skip
}

/// A row sequence alternates when every pair of adjacent rows differs.
pub open spec fn alternating(rows: Seq<bool>) -> bool {
    forall|i: int| 1 <= i < rows.len() ==> (#[trigger] rows[i]) != rows[i - 1]
}

/// Total number of rows covered by a sequence of segments.
pub open spec fn seg_rows(segs: Seq<Segment>) -> int
    decreases segs.len(),
{
    if segs.len() == 0 {
        0
    } else {
        seg_rows(segs.drop_last()) + segs.last().row_count
    }
}

/// Total number of taken rows across a sequence of segments.
pub open spec fn taken_rows_of(segs: Seq<Segment>) -> int
    decreases segs.len(),
{
    if segs.len() == 0 {
        0
    } else {
        taken_rows_of(segs.drop_last()) + (if segs.last().skip {
            0int
        } else {
            segs.last().row_count as int
        })
    }
}

/// Total number of skipped rows across a sequence of segments.
pub open spec fn skipped_rows_of(segs: Seq<Segment>) -> int
    decreases segs.len(),
{
    if segs.len() == 0 {
        0
    } else {
        skipped_rows_of(segs.drop_last()) + (if segs.last().skip {
            segs.last().row_count as int
        } else {
            0int
        })
    }
}

pub proof fn lemma_expand_push(segs: Seq<Segment>, s: Segment)
    ensures
        expand(segs.push(s)) == expand(segs) + run_of(s),
{
    assert(segs.push(s).drop_last() =~= segs);
    assert(segs.push(s).last() == s);
}

pub proof fn lemma_skips_of_take_succ(filters: Seq<FilterArray>, i: int)
    requires
        0 <= i < filters.len(),
    ensures
        skips_of(filters.take(i + 1)) == skips_of(filters.take(i)) + skips_of_array(
            filters[i],
        ),
{
    assert(filters.take(i + 1).drop_last() =~= filters.take(i));
    assert(filters.take(i + 1).last() == filters[i]);
}

/// One skip flag is described for every row.
pub proof fn lemma_skips_len(filters: Seq<FilterArray>)
    ensures
        skips_of(filters).len() == rows_of(filters),
    decreases filters.len(),
{
    if filters.len() > 0 {
        lemma_skips_len(filters.drop_last());
    }
}

/// Every row a selection covers is either taken or skipped.
pub proof fn lemma_taken_skipped_split(segs: Seq<Segment>)
    ensures
        0 <= taken_rows_of(segs),
        0 <= skipped_rows_of(segs),
        taken_rows_of(segs) + skipped_rows_of(segs) == seg_rows(segs),
    decreases segs.len(),
{
    if segs.len() > 0 {
        lemma_taken_skipped_split(segs.drop_last());
    }
}

pub proof fn lemma_seg_rows_take_succ(segs: Seq<Segment>, i: int)
    requires
        0 <= i < segs.len(),
    ensures
        seg_rows(segs.take(i + 1)) == seg_rows(segs.take(i)) + segs[i].row_count,
        taken_rows_of(segs.take(i + 1)) == taken_rows_of(segs.take(i)) + (if segs[i].skip {
            0int
        } else {
            segs[i].row_count as int
        }),
        skipped_rows_of(segs.take(i + 1)) == skipped_rows_of(segs.take(i)) + (if segs[i].skip {
            segs[i].row_count as int
        } else {
            0int
        }),
        expand(segs.take(i + 1)) == expand(segs.take(i)) + run_of(segs[i]),
{
    assert(segs.take(i + 1).drop_last() =~= segs.take(i));
    assert(segs.take(i + 1).last() == segs[i]);
}

/// Row totals only grow as more segments of a selection are counted.
pub proof fn lemma_seg_rows_take_le(segs: Seq<Segment>, i: int)
    requires
        0 <= i <= segs.len(),
    ensures
        seg_rows(segs.take(i)) <= seg_rows(segs),
    decreases segs.len() - i,
{
    if i == segs.len() {
        assert(segs.take(i) =~= segs);
    } else {
        lemma_seg_rows_take_succ(segs, i);
        lemma_seg_rows_take_le(segs, i + 1);
    }
}

/// The expansion of a non-empty selection ends with the skip flag of its
/// last segment.
pub proof fn lemma_expand_last(segs: Seq<Segment>)
    requires
        segs.len() > 0,
        segs.last().row_count >= 1,
    ensures
        expand(segs).len() > 0,
        expand(segs).last() == segs.last().skip,
{
}

/// A well-formed selection never has more segments than rows, and has exactly
/// as many segments as rows just when every pair of adjacent rows differs.
pub proof fn lemma_selection_count_bound(segs: Seq<Segment>)
    requires
        wf_selection(segs),
    ensures
        segs.len() <= expand(segs).len(),
        segs.len() == expand(segs).len() <==> alternating(expand(segs)),
    decreases segs.len(),
{
    if segs.len() == 0 {
        assert(alternating(expand(segs)));
    } else {
        let s2 = segs.drop_last();
        let x = segs.last();
        assert(wf_selection(s2)) by {
            assert(forall|i: int| 0 <= i < s2.len() ==> s2[i] == segs[i]);
        }
        lemma_selection_count_bound(s2);
        let e2 = expand(s2);
        let e = expand(segs);
        assert(e == e2 + run_of(x));
        assert(x.row_count >= 1);
        assert(segs.len() <= e.len());

        // A well-formed selection never lets a run continue past a segment
        // boundary, so the row just before the last run differs from it.
        if s2.len() > 0 {
            lemma_expand_last(s2);
            assert(e2.last() == s2.last().skip);
            assert(s2.last() == segs[segs.len() - 2]);
            assert(x.skip != s2.last().skip);
        }

        if segs.len() == e.len() {
            // Then the last segment covers one row and the prefix is exact.
            assert(s2.len() == e2.len() && x.row_count == 1);
            assert(alternating(e2));
            assert forall|i: int| 1 <= i < e.len() implies (#[trigger] e[i]) != e[i - 1] by {
                if i < e2.len() {
                    assert(e[i] == e2[i] && e[i - 1] == e2[i - 1]);
                } else {
                    assert(i == e2.len());
                    assert(e[i] == x.skip);
                    assert(e[i - 1] == e2.last());
                }
            }
            assert(alternating(e));
        }

        if alternating(e) {
            assert(alternating(e2)) by {
                assert(forall|i: int| 1 <= i < e2.len() ==> (#[trigger] e2[i]) == e[i]
                    && e2[i - 1] == e[i - 1]);
            }
            assert(x.row_count == 1) by {
                if x.row_count >= 2 {
                    let b = e2.len() as int;
                    assert(e[b + 1] == x.skip && e[b] == x.skip);
                }
            }
            assert(s2.len() == e2.len());
            assert(segs.len() == e.len());
        }
    }
}

/// Merge invariant for a filter set's row selection: any well-formed
/// selection that expands to the set's skip flags has at most one segment
/// per row, and exactly one segment per row just when every pair of
/// adjacent rows of the set differs in value.
pub proof fn lemma_selection_count_vs_rows(qf: QueryFilters, segs: Seq<Segment>)
    requires
        wf_selection(segs),
        expand(segs) == skips_of(qf.filters@),
    ensures
        segs.len() <= rows_of(qf.filters@),
        segs.len() == rows_of(qf.filters@) <==> alternating(skips_of(qf.filters@)),
{
    lemma_selection_count_bound(segs);
    lemma_skips_len(qf.filters@);
}

/// Carry the pending run at the end of the already-emitted segments.
pub open spec fn with_pending(segs: Seq<Segment>, skip: bool, count: u64) -> Seq<Segment> {
    if count == 0 {
        segs
    } else {
        segs.push(Segment { skip, row_count: count })
    }
}

/// Appending a non-empty segment whose skip value differs from the last one
/// keeps a selection well formed.
pub proof fn lemma_wf_push(segs: Seq<Segment>, s: Segment)
    requires
        wf_selection(segs),
        s.row_count >= 1,
        segs.len() > 0 ==> segs.last().skip != s.skip,
    ensures
        wf_selection(segs.push(s)),
{
    let p = segs.push(s);
    assert forall|i: int| 0 <= i < p.len() implies (#[trigger] p[i]).row_count >= 1 by {
        if i < segs.len() {
            assert(p[i] == segs[i]);
        } else {
            assert(p[i] == s);
        }
    }
    assert forall|i: int| 1 <= i < p.len() implies (#[trigger] p[i]).skip != p[i - 1].skip by {
        if i < segs.len() {
            assert(p[i] == segs[i] && p[i - 1] == segs[i - 1]);
        } else {
            assert(p[i] == s && p[i - 1] == segs[segs.len() - 1]);
        }
    }
}

impl QueryFilters {
    /// The skip flag of every row of this set, in original order: a row is
    /// skipped unless its predicate outcome is a definite `true`.
    #[verifier::loop_isolation(false)]
    pub fn skip_flags(&self) -> (r: Vec<bool>)
        ensures
            r@ == skips_of(self.filters@),
    {
        let mut out: Vec<bool> = Vec::new();
        let n: usize = self.filters.len();
        for i in 0..n
            invariant
                out@ == skips_of(self.filters@.take(i as int)),
        {
            let a: &FilterArray = &self.filters[i];
            let m: usize = a.rows.len();
            proof {
                assert(skips_of(self.filters@.take(i as int)) + skips_of_array(
                    self.filters@[i as int],
                ).take(0) =~= skips_of(self.filters@.take(i as int)));
            }
            for j in 0..m
                invariant
                    m == a@.len(),
                    out@ == skips_of(self.filters@.take(i as int)) + skips_of_array(
                        self.filters@[i as int],
                    ).take(j as int),
            {
                out.push(!row_is_taken(a.rows[j]));
                proof {
                    let sk = skips_of_array(self.filters@[i as int]);
                    assert(sk.take(j + 1) =~= sk.take(j as int).push(skip_of(a@[j as int])));
                    assert(skips_of(self.filters@.take(i as int)) + sk.take(j + 1) =~= (skips_of(
                        self.filters@.take(i as int),
                    ) + sk.take(j as int)).push(skip_of(a@[j as int])));
                }
            }
            proof {
                let sk = skips_of_array(self.filters@[i as int]);
                assert(sk.take(m as int) =~= sk);
                lemma_skips_of_take_succ(self.filters@, i as int);
            }
        }
        proof {
            assert(self.filters@.take(n as int) =~= self.filters@);
        }
        out
    }

    /// Convert this set's filter arrays into a run-length row selection.
    ///
    /// The segments expand, row for row and in original order, to exactly the
    /// skip flag of every row of the set, and adjacent rows with the same
    /// flag are merged into one segment even across array boundaries: no two
    /// adjacent segments share a skip value, every segment covers at least
    /// one row, and a set with no rows yields no segments.
    #[verifier::loop_isolation(false)]
    #[verifier::rlimit(60)]
    pub fn row_selection(&self) -> (r: Vec<Segment>)
        requires
            self.spec_total_rows() <= u64::MAX,
        ensures
            expand(r@) == skips_of(self.filters@),
            wf_selection(r@),
            r@.len() <= self.spec_total_rows(),
    {
        let mut segs: Vec<Segment> = Vec::new();
        let mut cur_skip: bool = false;
        let mut cur_count: u64 = 0;
        let n: usize = self.filters.len();
        for i in 0..n
            invariant
                wf_selection(segs@),
                cur_count == 0 ==> segs@.len() == 0,
                cur_count > 0 && segs@.len() > 0 ==> segs@.last().skip != cur_skip,
                expand(with_pending(segs@, cur_skip, cur_count)) == skips_of(
                    self.filters@.take(i as int),
                ),
                cur_count <= rows_of(self.filters@.take(i as int)),
        {
            let a: &FilterArray = &self.filters[i];
            let m: usize = a.rows.len();
            proof {
                lemma_rows_of_take_succ(self.filters@, i as int);
                lemma_rows_of_take_le(self.filters@, i + 1);
                assert(skips_of(self.filters@.take(i as int)) + skips_of_array(
                    self.filters@[i as int],
                ).take(0) =~= skips_of(self.filters@.take(i as int)));
            }
            for j in 0..m
                invariant
                    m == a@.len(),
                    wf_selection(segs@),
                    cur_count == 0 ==> segs@.len() == 0,
                    cur_count > 0 && segs@.len() > 0 ==> segs@.last().skip != cur_skip,
                    expand(with_pending(segs@, cur_skip, cur_count)) == skips_of(
                        self.filters@.take(i as int),
                    ) + skips_of_array(self.filters@[i as int]).take(j as int),
                    cur_count <= rows_of(self.filters@.take(i as int)) + j,
            {
                let flag: bool = !row_is_taken(a.rows[j]);
                proof {
                    let sk = skips_of_array(self.filters@[i as int]);
                    let prefix = skips_of(self.filters@.take(i as int)) + sk.take(j as int);
                    assert(sk.take(j + 1) =~= sk.take(j as int).push(skip_of(a@[j as int])));
                    assert(skips_of(self.filters@.take(i as int)) + sk.take(j + 1) =~= prefix.push(
                        flag,
                    ));
                }
                if cur_count == 0 {
                    cur_skip = flag;
                    cur_count = 1;
                    proof {
                        assert(with_pending(segs@, cur_skip, cur_count) =~= Seq::empty().push(
                            Segment { skip: cur_skip, row_count: 1u64 },
                        ));
                        lemma_expand_push(Seq::empty(), Segment { skip: cur_skip, row_count: 1u64 });
                        assert(run_of(Segment { skip: cur_skip, row_count: 1u64 }) =~= Seq::empty().push(
                            flag,
                        ));
                        assert(expand(with_pending(segs@, cur_skip, cur_count)) =~= skips_of(
                            self.filters@.take(i as int),
                        ) + skips_of_array(self.filters@[i as int]).take(j + 1));
                    }
                } else if flag == cur_skip {
                    proof {
                        lemma_rows_of_take_succ(self.filters@, i as int);
                        lemma_rows_of_take_le(self.filters@, i + 1);
                        let old_seg = Segment { skip: cur_skip, row_count: cur_count };
                        let new_seg = Segment { skip: cur_skip, row_count: (cur_count + 1) as u64 };
                        lemma_expand_push(segs@, old_seg);
                        lemma_expand_push(segs@, new_seg);
                        assert(run_of(new_seg) =~= run_of(old_seg).push(flag));
                        assert(expand(segs@) + run_of(old_seg).push(flag) =~= (expand(segs@)
                            + run_of(old_seg)).push(flag));
                    }
                    cur_count = cur_count + 1;
                } else {
                    proof {
                        let old_seg = Segment { skip: cur_skip, row_count: cur_count };
                        let new_seg = Segment { skip: flag, row_count: 1u64 };
                        lemma_wf_push(segs@, old_seg);
                        assert(segs@.push(old_seg).last() == old_seg);
                        lemma_expand_push(segs@, old_seg);
                        lemma_expand_push(segs@.push(old_seg), new_seg);
                        assert(run_of(new_seg) =~= Seq::empty().push(flag));
                        assert(expand(segs@.push(old_seg)) + run_of(new_seg) =~= expand(
                            segs@.push(old_seg),
                        ).push(flag));
                    }
                    segs.push(Segment { skip: cur_skip, row_count: cur_count });
                    cur_skip = flag;
                    cur_count = 1;
                }
            }
            proof {
                let sk = skips_of_array(self.filters@[i as int]);
                assert(sk.take(m as int) =~= sk);
                lemma_skips_of_take_succ(self.filters@, i as int);
            }
        }
        proof {
            assert(self.filters@.take(n as int) =~= self.filters@);
        }
        if cur_count > 0 {
            proof {
                lemma_wf_push(segs@, Segment { skip: cur_skip, row_count: cur_count });
            }
            segs.push(Segment { skip: cur_skip, row_count: cur_count });
        }
        proof {
            lemma_selection_count_bound(segs@);
            lemma_skips_len(self.filters@);
        }
        segs
    }
}

/// Sum the taken and skipped row counts of a selection: the pair of the
/// total rows its segments take and the total rows they skip.
#[verifier::loop_isolation(false)]
pub fn selection_stats(segs: &Vec<Segment>) -> (r: (u64, u64))
    requires
        seg_rows(segs@) <= u64::MAX,
    ensures
        r.0 == taken_rows_of(segs@),
        r.1 == skipped_rows_of(segs@),
{
    let mut taken: u64 = 0;
    let mut skipped: u64 = 0;
    let n: usize = segs.len();
    for i in 0..n
        invariant
            taken == taken_rows_of(segs@.take(i as int)),
            skipped == skipped_rows_of(segs@.take(i as int)),
    {
        proof {
            lemma_seg_rows_take_succ(segs@, i as int);
            lemma_seg_rows_take_le(segs@, i + 1);
            lemma_taken_skipped_split(segs@.take(i as int));
            lemma_taken_skipped_split(segs@.take(i + 1));
        }
        let s: Segment = segs[i];
        if s.skip {
            skipped = skipped + s.row_count;
        } else {
            taken = taken + s.row_count;
        }
    }
    proof {
        assert(segs@.take(n as int) =~= segs@);
    }
    (taken, skipped)
}

/// Expand a selection back into one skip flag per row, in order.
#[verifier::loop_isolation(false)]
pub fn expand_selection(segs: &Vec<Segment>) -> (r: Vec<bool>)
    ensures
        r@ == expand(segs@),
{
    let mut out: Vec<bool> = Vec::new();
    let n: usize = segs.len();
    for i in 0..n
        invariant
            out@ == expand(segs@.take(i as int)),
    {
        let s: Segment = segs[i];
        let mut j: u64 = 0;
        proof {
            assert(expand(segs@.take(i as int)) + run_of(s).take(0) =~= expand(
                segs@.take(i as int),
            ));
        }
        while j < s.row_count
            invariant
                j <= s.row_count,
                s == segs@[i as int],
                out@ == expand(segs@.take(i as int)) + run_of(s).take(j as int),
            decreases s.row_count - j,
        {
            out.push(s.skip);
            proof {
                assert(run_of(s).take(j + 1) =~= run_of(s).take(j as int).push(s.skip));
                assert(expand(segs@.take(i as int)) + run_of(s).take(j + 1) =~= (expand(
                    segs@.take(i as int),
                ) + run_of(s).take(j as int)).push(s.skip));
            }
            j = j + 1;
        }
        proof {
            assert(run_of(s).take(s.row_count as int) =~= run_of(s));
            lemma_seg_rows_take_succ(segs@, i as int);
        }
    }
    proof {
        assert(segs@.take(n as int) =~= segs@);
    }
    out
}

} // verus!
