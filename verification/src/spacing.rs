//! Evenly spaced datasets: no gaps, and at most one cluster.

use vstd::prelude::*;
use crate::anomaly::{AnomalyView, ZScore};
use crate::factor::Factor;
use crate::lyagushka::{analysis, lemma_sorted_values_unique, sorted_values};
use crate::model::{
    anomaly_of, ascending, distance, gap_span, is_close, is_wide, pair_count, run_span, segments,
    spans, spans_from, sum_distances, Span,
};
use crate::scorer::{densities_vary, has_density, scored, z_score_of};

verus! {

/// Every observation lies `d` behind the one before it.
pub open spec fn evenly_spaced(s: Seq<i32>, d: int) -> bool {
    d >= 0 && forall|i: int| 0 <= i < s.len() - 1 ==> #[trigger] distance(s, i) == d
}

/// The first `n` distances of an evenly spaced dataset add up to `n * d`,
/// and observation `n` lies `n * d` behind the first.
pub proof fn lemma_even_sum(s: Seq<i32>, d: int, n: int)
    requires
        evenly_spaced(s, d),
        0 <= n < s.len(),
    ensures
        sum_distances(s, n) == n * d,
        s[n] == s[0] + n * d,
    decreases n,
{
    if n > 0 {
        lemma_even_sum(s, d, n - 1);
        assert(distance(s, n - 1) == d);
        assert(n * d == (n - 1) * d + d) by (nonlinear_arith);
    }
}

/// An evenly spaced dataset is in ascending order.
pub proof fn lemma_even_is_ascending(s: Seq<i32>, d: int)
    requires
        evenly_spaced(s, d),
    ensures
        ascending(s),
        sorted_values(s) == s,
{
    assert forall|i: int, j: int| 0 <= i <= j < s.len() implies s[i] <= s[j] by {
        lemma_even_sum(s, d, i);
        lemma_even_sum(s, d, j);
        assert(i * d <= j * d) by (nonlinear_arith)
            requires
                0 <= i <= j,
                d >= 0,
        ;
    }
    lemma_sorted_values_unique(s, s);
}

/// With a factor of at least one and a gap scale of at least one, no pair
/// of an evenly spaced dataset lies beyond the gap threshold.
pub proof fn lemma_even_has_no_wide_pair(s: Seq<i32>, d: int, factor: Factor, gap_scale: int)
    requires
        evenly_spaced(s, d),
        factor.wf(),
        factor.num() >= factor.den(),
        gap_scale >= 1,
    ensures
        forall|i: int| 0 <= i < s.len() - 1 ==> !is_wide(s, factor, gap_scale, i),
{
    assert forall|i: int| 0 <= i < s.len() - 1 implies !is_wide(s, factor, gap_scale, i) by {
        let pairs = pair_count(s);
        lemma_even_sum(s, d, pairs);
        assert(distance(s, i) == d);
        assert(d * (pairs * factor.den()) <= (gap_scale * factor.num()) * (pairs * d))
            by (nonlinear_arith)
            requires
                d >= 0,
                pairs >= 0,
                factor.num() >= factor.den() > 0,
                gap_scale >= 1,
        ;
    }
}

/// With a factor of at most one, or with equal observations, every pair of
/// an evenly spaced dataset lies within the cluster threshold.
pub proof fn lemma_even_has_close_pairs(s: Seq<i32>, d: int, factor: Factor)
    requires
        evenly_spaced(s, d),
        factor.wf(),
        factor.num() <= factor.den() || d == 0,
    ensures
        forall|i: int| 0 <= i < s.len() - 1 ==> is_close(s, factor, i),
{
    assert forall|i: int| 0 <= i < s.len() - 1 implies is_close(s, factor, i) by {
        let pairs = pair_count(s);
        lemma_even_sum(s, d, pairs);
        assert(distance(s, i) == d);
        assert(d * (pairs * factor.num()) <= (pairs * d) * factor.den()) by (nonlinear_arith)
            requires
                d >= 0,
                pairs >= 0,
                0 < factor.num(),
                0 < factor.den(),
                factor.num() <= factor.den() || d == 0,
        ;
    }
}

/// Where no pair lies beyond the gap threshold, no gap is reported.
pub proof fn lemma_no_wide_pair_no_gap(
    s: Seq<i32>,
    factor: Factor,
    min_cluster_size: int,
    gap_scale: int,
    run: int,
    i: int,
)
    requires
        0 <= run <= i,
        forall|j: int| 0 <= j < s.len() - 1 ==> !is_wide(s, factor, gap_scale, j),
    ensures
        forall|j: int|
            0 <= j < spans_from(s, factor, min_cluster_size, gap_scale, run, i).len()
                ==> !(#[trigger] spans_from(
                s,
                factor,
                min_cluster_size,
                gap_scale,
                run,
                i,
            )[j]).is_gap,
    decreases s.len() - i,
{
    let r = spans_from(s, factor, min_cluster_size, gap_scale, run, i);
    let x = run_span(min_cluster_size, run, i);
    assert forall|j: int| 0 <= j < x.len() implies !(#[trigger] x[j]).is_gap by {
        assert(x[0] == Span { first: run, last: i, is_gap: false });
    }
    if i + 1 >= s.len() {
        assert(r == x);
    } else if is_close(s, factor, i) {
        lemma_no_wide_pair_no_gap(s, factor, min_cluster_size, gap_scale, run, i + 1);
        assert(r == spans_from(s, factor, min_cluster_size, gap_scale, run, i + 1));
    } else {
        lemma_no_wide_pair_no_gap(s, factor, min_cluster_size, gap_scale, i + 1, i + 1);
        let z = spans_from(s, factor, min_cluster_size, gap_scale, i + 1, i + 1);
        assert(gap_span(s, factor, gap_scale, i) =~= Seq::<Span>::empty());
        assert(r =~= x + z);
        assert forall|j: int| 0 <= j < r.len() implies !(#[trigger] r[j]).is_gap by {
            if j < x.len() {
                assert(r[j] == x[j]);
            } else {
                assert(r[j] == z[j - x.len()]);
            }
        }
    }
}

/// Where every pair from `i` on lies within the cluster threshold, the
/// scan only reports the run that is open, when it reaches the end.
pub proof fn lemma_all_close_is_one_run(
    s: Seq<i32>,
    factor: Factor,
    min_cluster_size: int,
    gap_scale: int,
    run: int,
    i: int,
)
    requires
        0 <= run <= i < s.len(),
        forall|j: int| i <= j < s.len() - 1 ==> is_close(s, factor, j),
    ensures
        spans_from(s, factor, min_cluster_size, gap_scale, run, i) == run_span(
            min_cluster_size,
            run,
            s.len() - 1,
        ),
    decreases s.len() - i,
{
    if i + 1 < s.len() {
        lemma_all_close_is_one_run(s, factor, min_cluster_size, gap_scale, run, i + 1);
    }
}

/// The one cluster that holds a whole dataset, scored by itself: its score
/// is zero, or unset when all its observations are equal.
pub open spec fn whole_cluster(s: Seq<i32>) -> AnomalyView {
    AnomalyView {
        elements: s,
        start: s.first(),
        end: s.last(),
        z_score: if s.first() < s.last() {
            Some(ZScore::Exact { numerator: 0, radicand: 1 })
        } else {
            None
        },
    }
}

/// A dataset whose pairs all lie within the cluster threshold is one
/// cluster, if it holds at least two observations and at least
/// `min_cluster_size` of them, and nothing otherwise.
pub proof fn lemma_all_close_analysis(
    s: Seq<i32>,
    factor: Factor,
    min_cluster_size: int,
    gap_scale: int,
)
    requires
        ascending(s),
        forall|j: int| 0 <= j < s.len() - 1 ==> is_close(s, factor, j),
    ensures
        s.len() >= 2 && s.len() >= min_cluster_size ==> analysis(
            s,
            factor,
            min_cluster_size,
            gap_scale,
        ) == seq![whole_cluster(s)],
        !(s.len() >= 2 && s.len() >= min_cluster_size) ==> analysis(
            s,
            factor,
            min_cluster_size,
            gap_scale,
        ) == Seq::<AnomalyView>::empty(),
{
    lemma_sorted_values_unique(s, s);
    let r = spans(s, factor, min_cluster_size, gap_scale);
    let v = segments(s, factor, min_cluster_size, gap_scale);
    let w = analysis(s, factor, min_cluster_size, gap_scale);
    if s.len() >= 1 {
        lemma_all_close_is_one_run(s, factor, min_cluster_size, gap_scale, 0, 0);
    }
    if s.len() >= 2 && s.len() >= min_cluster_size {
        let whole = Span { first: 0, last: s.len() - 1, is_gap: false };
        assert(r =~= seq![whole]);
        assert(s.subrange(0, s.len() as int) =~= s);
        let unscored = anomaly_of(s, whole);
        assert(v =~= seq![unscored]);
        assert(!densities_vary(v));
        if s.first() < s.last() {
            assert(has_density(unscored));
        }
        assert(z_score_of(v, 0) == whole_cluster(s).z_score);
        assert(w =~= seq![whole_cluster(s)]);
    } else {
        assert(r =~= Seq::<Span>::empty());
        assert(v =~= Seq::<AnomalyView>::empty());
        assert(w =~= Seq::<AnomalyView>::empty());
    }
}

} // verus!
