//! How the reported spans lie in the dataset: in the order of the scan
//! and without overlap.

use vstd::prelude::*;
use crate::factor::Factor;
use crate::model::{gap_span, is_close, run_span, spans_from, Span};

verus! {

/// No span begins before an earlier one has ended.
pub open spec fn in_order(r: Seq<Span>) -> bool {
    forall|a: int, b: int| 0 <= a < b < r.len() ==> r[a].last <= r[b].first
}

/// Every span holds at least two positions and lies between `lo` and `hi`.
pub open spec fn within(r: Seq<Span>, lo: int, hi: int) -> bool {
    forall|a: int| 0 <= a < r.len() ==> lo <= (#[trigger] r[a]).first < r[a].last <= hi
}

/// Spans in order that end by `mid`, followed by spans in order that begin
/// at `mid` or later, are in order.
pub proof fn lemma_in_order_concat(x: Seq<Span>, y: Seq<Span>, lo: int, mid: int, hi: int)
    requires
        in_order(x),
        in_order(y),
        within(x, lo, mid),
        within(y, mid, hi),
        lo <= mid <= hi,
    ensures
        in_order(x + y),
        within(x + y, lo, hi),
{
    let z = x + y;
    assert forall|a: int| 0 <= a < z.len() implies lo <= (#[trigger] z[a]).first < z[a].last
        <= hi by {
        if a < x.len() {
            assert(z[a] == x[a]);
        } else {
            assert(z[a] == y[a - x.len()]);
        }
    }
    assert forall|a: int, b: int| 0 <= a < b < z.len() implies z[a].last <= z[b].first by {
        if b < x.len() {
            assert(z[a] == x[a] && z[b] == x[b]);
        } else if a < x.len() {
            assert(z[a] == x[a]);
            assert(z[b] == y[b - x.len()]);
        } else {
            assert(z[a] == y[a - x.len()]);
            assert(z[b] == y[b - x.len()]);
        }
    }
}

/// A run that is reported lies where it was scanned.
pub proof fn lemma_run_span(min_cluster_size: int, run: int, i: int)
    requires
        0 <= run <= i,
    ensures
        in_order(run_span(min_cluster_size, run, i)),
        within(run_span(min_cluster_size, run, i), run, i),
        run_span(min_cluster_size, run, i).len() <= 1,
{
}

/// A gap that is reported lies on its pair.
pub proof fn lemma_gap_span(s: Seq<i32>, factor: Factor, gap_scale: int, i: int)
    ensures
        in_order(gap_span(s, factor, gap_scale, i)),
        within(gap_span(s, factor, gap_scale, i), i, i + 1),
        gap_span(s, factor, gap_scale, i).len() <= 1,
{
}

/// What the scan reports from pair `i` on, with a run open since `run`,
/// lies between `run` and the end of the data, in order and without
/// overlap, and it has at most two spans for each remaining position.
pub proof fn lemma_spans_from_structure(
    s: Seq<i32>,
    factor: Factor,
    min_cluster_size: int,
    gap_scale: int,
    run: int,
    i: int,
)
    requires
        0 <= run <= i < s.len(),
    ensures
        in_order(spans_from(s, factor, min_cluster_size, gap_scale, run, i)),
        within(spans_from(s, factor, min_cluster_size, gap_scale, run, i), run, s.len() - 1),
        spans_from(s, factor, min_cluster_size, gap_scale, run, i).len() <= 2 * (s.len() - i),
    decreases s.len() - i,
{
    lemma_run_span(min_cluster_size, run, i);
    if i + 1 >= s.len() {
    } else if is_close(s, factor, i) {
        lemma_spans_from_structure(s, factor, min_cluster_size, gap_scale, run, i + 1);
    } else {
        let x = run_span(min_cluster_size, run, i);
        let y = gap_span(s, factor, gap_scale, i);
        let z = spans_from(s, factor, min_cluster_size, gap_scale, i + 1, i + 1);
        lemma_gap_span(s, factor, gap_scale, i);
        lemma_spans_from_structure(s, factor, min_cluster_size, gap_scale, i + 1, i + 1);
        lemma_in_order_concat(x, y, run, i, i + 1);
        lemma_in_order_concat(x + y, z, run, i + 1, s.len() - 1);
    }
}

} // verus!
