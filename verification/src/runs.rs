//! Which spans are reported: the clusters are the maximal runs of close
//! pairs that are large enough, the gaps are the wide pairs that are not
//! close.

use vstd::prelude::*;
use crate::factor::Factor;
use crate::model::{gap_span, is_close, is_wide, run_span, spans, spans_from, Span};

verus! {

/// All pairs from position `a` up to position `b` lie within the cluster
/// threshold.
pub open spec fn is_run(s: Seq<i32>, factor: Factor, a: int, b: int) -> bool {
    0 <= a < b < s.len() && forall|j: int| a <= j < b ==> is_close(s, factor, j)
}

/// A run that cannot be extended to either side.
pub open spec fn is_maximal_run(s: Seq<i32>, factor: Factor, a: int, b: int) -> bool {
    &&& is_run(s, factor, a, b)
    &&& a > 0 ==> !is_close(s, factor, a - 1)
    &&& b + 1 < s.len() ==> !is_close(s, factor, b)
}

/// The span of the cluster from position `a` to position `b`.
pub open spec fn cluster_span(a: int, b: int) -> Span {
    Span { first: a, last: b, is_gap: false }
}

/// The span of the gap between position `i` and the next.
pub open spec fn gap_at(i: int) -> Span {
    Span { first: i, last: i + 1, is_gap: true }
}

/// While the scan stands at pair `i`, the pairs since `run` were all close
/// and the pair before `run`, if there is one, was not.
pub open spec fn run_is_open(s: Seq<i32>, factor: Factor, run: int, i: int) -> bool {
    &&& 0 <= run <= i < s.len()
    &&& forall|j: int| run <= j < i ==> is_close(s, factor, j)
    &&& run > 0 ==> !is_close(s, factor, run - 1)
}

/// What is in one list or the other is in both put together, and nothing
/// else is.
pub proof fn lemma_contains_concat(x: Seq<Span>, y: Seq<Span>, e: Span)
    ensures
        (x + y).contains(e) <==> x.contains(e) || y.contains(e),
{
    let z = x + y;
    if x.contains(e) {
        let j = choose|j: int| 0 <= j < x.len() && x[j] == e;
        assert(z[j] == e);
    }
    if y.contains(e) {
        let j = choose|j: int| 0 <= j < y.len() && y[j] == e;
        assert(z[x.len() + j] == e);
    }
    if z.contains(e) {
        let j = choose|j: int| 0 <= j < z.len() && z[j] == e;
        if j < x.len() {
            assert(x[j] == e);
        } else {
            assert(y[j - x.len()] == e);
        }
    }
}

/// The run that the scan reports at pair `i` is the one open since `run`,
/// if it qualifies, and it is a cluster.
pub proof fn lemma_run_span_contains(min_cluster_size: int, run: int, i: int, e: Span)
    ensures
        run_span(min_cluster_size, run, i).contains(e) <==> (run < i && i - run + 1
            >= min_cluster_size && e == cluster_span(run, i)),
{
    let x = run_span(min_cluster_size, run, i);
    if run < i && i - run + 1 >= min_cluster_size {
        assert(x[0] == cluster_span(run, i));
    }
}

/// The gap that the scan reports at pair `i` is that pair, if it is wide.
pub proof fn lemma_gap_span_contains(s: Seq<i32>, factor: Factor, gap_scale: int, i: int, e: Span)
    ensures
        gap_span(s, factor, gap_scale, i).contains(e) <==> (is_wide(s, factor, gap_scale, i) && e
            == gap_at(i)),
{
    let y = gap_span(s, factor, gap_scale, i);
    if is_wide(s, factor, gap_scale, i) {
        assert(y[0] == gap_at(i));
    }
}

/// From pair `i` on, with a run open since `run`, the scan reports the
/// cluster from `a` to `b` exactly when that is a maximal run of at least
/// `min_cluster_size` observations which begins at `run` or later.
pub proof fn lemma_clusters_from(
    s: Seq<i32>,
    factor: Factor,
    min_cluster_size: int,
    gap_scale: int,
    run: int,
    i: int,
    a: int,
    b: int,
)
    requires
        run_is_open(s, factor, run, i),
    ensures
        spans_from(s, factor, min_cluster_size, gap_scale, run, i).contains(cluster_span(a, b))
            <==> (is_maximal_run(s, factor, a, b) && b - a + 1 >= min_cluster_size && a >= run),
    decreases s.len() - i,
{
    let e = cluster_span(a, b);
    let x = run_span(min_cluster_size, run, i);
    lemma_run_span_contains(min_cluster_size, run, i, e);
    if is_maximal_run(s, factor, a, b) && run <= a <= i {
        if a > run {
            assert(is_close(s, factor, a - 1));
        }
        if b < i {
            assert(is_close(s, factor, b));
        }
        assert(a == run && b >= i);
    }
    if i + 1 >= s.len() {
    } else if is_close(s, factor, i) {
        assert(run_is_open(s, factor, run, i + 1));
        lemma_clusters_from(s, factor, min_cluster_size, gap_scale, run, i + 1, a, b);
    } else {
        let y = gap_span(s, factor, gap_scale, i);
        let z = spans_from(s, factor, min_cluster_size, gap_scale, i + 1, i + 1);
        assert(run_is_open(s, factor, i + 1, i + 1));
        lemma_clusters_from(s, factor, min_cluster_size, gap_scale, i + 1, i + 1, a, b);
        lemma_gap_span_contains(s, factor, gap_scale, i, e);
        lemma_contains_concat(x, y, e);
        lemma_contains_concat(x + y, z, e);
        if is_maximal_run(s, factor, a, b) && run <= a <= i && b > i {
            assert(is_close(s, factor, i));
        }
    }
}

/// From pair `j` on, the scan reports the gap at pair `i` exactly when
/// that pair comes at `j` or later, is not close, and is wide.
pub proof fn lemma_gaps_from(
    s: Seq<i32>,
    factor: Factor,
    min_cluster_size: int,
    gap_scale: int,
    run: int,
    j: int,
    i: int,
)
    requires
        0 <= run <= j,
    ensures
        spans_from(s, factor, min_cluster_size, gap_scale, run, j).contains(gap_at(i)) <==> (j
            <= i < s.len() - 1 && !is_close(s, factor, i) && is_wide(s, factor, gap_scale, i)),
    decreases s.len() - j,
{
    let e = gap_at(i);
    let x = run_span(min_cluster_size, run, j);
    lemma_run_span_contains(min_cluster_size, run, j, e);
    if j + 1 >= s.len() {
    } else if is_close(s, factor, j) {
        lemma_gaps_from(s, factor, min_cluster_size, gap_scale, run, j + 1, i);
    } else {
        let y = gap_span(s, factor, gap_scale, j);
        let z = spans_from(s, factor, min_cluster_size, gap_scale, j + 1, j + 1);
        lemma_gaps_from(s, factor, min_cluster_size, gap_scale, j + 1, j + 1, i);
        lemma_gap_span_contains(s, factor, gap_scale, j, e);
        lemma_contains_concat(x, y, e);
        lemma_contains_concat(x + y, z, e);
    }
}

/// Every span that the scan reports is a cluster from `first` to `last`
/// or the gap at `first`.
pub proof fn lemma_span_shapes(
    s: Seq<i32>,
    factor: Factor,
    min_cluster_size: int,
    gap_scale: int,
    run: int,
    i: int,
    e: Span,
)
    requires
        0 <= run <= i,
        spans_from(s, factor, min_cluster_size, gap_scale, run, i).contains(e),
    ensures
        e.is_gap ==> e == gap_at(e.first),
        !e.is_gap ==> e == cluster_span(e.first, e.last),
    decreases s.len() - i,
{
    let x = run_span(min_cluster_size, run, i);
    lemma_run_span_contains(min_cluster_size, run, i, e);
    if i + 1 >= s.len() {
    } else if is_close(s, factor, i) {
        lemma_span_shapes(s, factor, min_cluster_size, gap_scale, run, i + 1, e);
    } else {
        let y = gap_span(s, factor, gap_scale, i);
        let z = spans_from(s, factor, min_cluster_size, gap_scale, i + 1, i + 1);
        lemma_gap_span_contains(s, factor, gap_scale, i, e);
        lemma_contains_concat(x, y, e);
        lemma_contains_concat(x + y, z, e);
        if z.contains(e) {
            lemma_span_shapes(s, factor, min_cluster_size, gap_scale, i + 1, i + 1, e);
        }
    }
}

} // verus!
