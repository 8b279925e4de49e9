//! What holds of every analysis, stated over the model and proved.

use vstd::prelude::*;
use crate::anomaly::{lemma_sum_between_ends, AnomalyView, ZScore};
use crate::factor::Factor;
use crate::lyagushka::{
    analysis, lemma_sorted_values, lemma_sorted_values_unique, searched, sorted_values,
    LyagushkaView,
};
use crate::model::{
    anomaly_of, ascending, distance, is_close, is_wide, lemma_total_distance, pair_count,
    segments, spans, total_distance, Span,
};
use crate::runs::{
    cluster_span, gap_at, is_maximal_run, lemma_clusters_from, lemma_gaps_from,
    lemma_span_shapes,
};
use crate::scorer::{
    densities_vary, has_density, same_density, score_numerator, scored, span_lengths,
    standard_score, z_score_of, zero_score,
};
use crate::spacing::{
    evenly_spaced, lemma_all_close_analysis, lemma_even_has_close_pairs,
    lemma_even_has_no_wide_pair, lemma_even_is_ascending, lemma_no_wide_pair_no_gap,
    whole_cluster,
};
use crate::structure::{in_order, lemma_spans_from_structure, within};
use crate::variance::{constant, lemma_radicand_sign, radicand};

verus! {

/// A dataset of fewer than two observations has no segments, whatever the
/// factor, the minimum cluster size and the gap scale.
pub proof fn lemma_short_dataset_has_no_segments(
    s: Seq<i32>,
    factor: Factor,
    min_cluster_size: int,
    gap_scale: int,
)
    requires
        s.len() < 2,
    ensures
        segments(s, factor, min_cluster_size, gap_scale) == Seq::<AnomalyView>::empty(),
        analysis(s, factor, min_cluster_size, gap_scale) == Seq::<AnomalyView>::empty(),
{
    lemma_sorted_values(s);
    let t = sorted_values(s);
    assert(spans(s, factor, min_cluster_size, gap_scale) =~= Seq::<Span>::empty());
    assert(spans(t, factor, min_cluster_size, gap_scale) =~= Seq::<Span>::empty());
    assert(segments(s, factor, min_cluster_size, gap_scale) =~= Seq::<AnomalyView>::empty());
    assert(segments(t, factor, min_cluster_size, gap_scale) =~= Seq::<AnomalyView>::empty());
    assert(analysis(s, factor, min_cluster_size, gap_scale) =~= Seq::<AnomalyView>::empty());
}

/// The analysis does not depend on the order in which the observations
/// come: two datasets with the same observations, each as often in one as
/// in the other, have the same scored segments.
pub proof fn lemma_analysis_ignores_order(
    s: Seq<i32>,
    t: Seq<i32>,
    factor: Factor,
    min_cluster_size: int,
    gap_scale: int,
)
    requires
        s.to_multiset() == t.to_multiset(),
    ensures
        sorted_values(s) == sorted_values(t),
        analysis(s, factor, min_cluster_size, gap_scale) == analysis(
            t,
            factor,
            min_cluster_size,
            gap_scale,
        ),
{
    lemma_sorted_values(s);
    lemma_sorted_values_unique(t, sorted_values(s));
}

/// A search forgets what was found before: its outcome depends on the
/// dataset and the gap scale alone.
pub proof fn lemma_search_forgets_earlier_findings(
    a: LyagushkaView,
    b: LyagushkaView,
    factor: Factor,
    min_cluster_size: int,
)
    requires
        a.dataset == b.dataset,
        a.gap_scale == b.gap_scale,
    ensures
        searched(a, factor, min_cluster_size) == searched(b, factor, min_cluster_size),
{
}

/// Searching is idempotent: a second search with the same parameters
/// leaves the state exactly as the first one left it.
pub proof fn lemma_search_is_idempotent(
    before: LyagushkaView,
    factor: Factor,
    min_cluster_size: int,
)
    ensures
        searched(searched(before, factor, min_cluster_size), factor, min_cluster_size)
            == searched(before, factor, min_cluster_size),
{
    lemma_sorted_values(before.dataset);
    lemma_analysis_ignores_order(
        sorted_values(before.dataset),
        before.dataset,
        factor,
        min_cluster_size,
        before.gap_scale,
    );
}

/// The spans are reported in the order of the data: each lies within the
/// dataset, and a later span begins strictly behind the beginning of an
/// earlier one and not before its end.
pub proof fn lemma_spans_follow_the_data(
    s: Seq<i32>,
    factor: Factor,
    min_cluster_size: int,
    gap_scale: int,
)
    ensures
        within(spans(s, factor, min_cluster_size, gap_scale), 0, s.len() - 1),
        in_order(spans(s, factor, min_cluster_size, gap_scale)),
        forall|a: int, b: int|
            0 <= a < b < spans(s, factor, min_cluster_size, gap_scale).len() ==> spans(
                s,
                factor,
                min_cluster_size,
                gap_scale,
            )[a].first < spans(s, factor, min_cluster_size, gap_scale)[b].first,
{
    let r = spans(s, factor, min_cluster_size, gap_scale);
    if s.len() > 0 {
        lemma_spans_from_structure(s, factor, min_cluster_size, gap_scale, 0, 0);
    }
    assert forall|a: int, b: int| 0 <= a < b < r.len() implies r[a].first < r[b].first by {
        assert(r[a].first < r[a].last);
        assert(r[a].last <= r[b].first);
    }
}

/// The segments of an ascending dataset do not overlap and come in
/// ascending order: a later segment starts no earlier than an earlier one
/// ends, and strictly later than it starts unless the earlier one is a
/// cluster of equal observations.
pub proof fn lemma_segments_follow_the_data(
    s: Seq<i32>,
    factor: Factor,
    min_cluster_size: int,
    gap_scale: int,
)
    requires
        ascending(s),
    ensures
        forall|a: int, b: int|
            0 <= a < b < segments(s, factor, min_cluster_size, gap_scale).len() ==> {
                let x = #[trigger] segments(s, factor, min_cluster_size, gap_scale)[a];
                let y = #[trigger] segments(s, factor, min_cluster_size, gap_scale)[b];
                &&& x.start <= x.end <= y.start <= y.end
                &&& x.span_length() > 0 ==> x.start < y.start
            },
{
    let r = spans(s, factor, min_cluster_size, gap_scale);
    let v = segments(s, factor, min_cluster_size, gap_scale);
    lemma_spans_follow_the_data(s, factor, min_cluster_size, gap_scale);
    assert forall|a: int, b: int| 0 <= a < b < v.len() implies ({
        let x = #[trigger] v[a];
        let y = #[trigger] v[b];
        &&& x.start <= x.end <= y.start <= y.end
        &&& x.span_length() > 0 ==> x.start < y.start
    }) by {
        assert(v[a] == anomaly_of(s, r[a]));
        assert(v[b] == anomaly_of(s, r[b]));
        assert(0 <= r[a].first < r[a].last <= s.len() - 1);
        assert(0 <= r[b].first < r[b].last <= s.len() - 1);
        assert(r[a].last <= r[b].first);
    }
}

/// The scored segments of any dataset come in ascending order and do not
/// overlap, as `lemma_segments_follow_the_data` says of the unscored ones.
pub proof fn lemma_analysis_follows_the_data(
    s: Seq<i32>,
    factor: Factor,
    min_cluster_size: int,
    gap_scale: int,
)
    ensures
        forall|a: int, b: int|
            0 <= a < b < analysis(s, factor, min_cluster_size, gap_scale).len() ==> {
                let x = #[trigger] analysis(s, factor, min_cluster_size, gap_scale)[a];
                let y = #[trigger] analysis(s, factor, min_cluster_size, gap_scale)[b];
                &&& x.start <= x.end <= y.start <= y.end
                &&& x.span_length() > 0 ==> x.start < y.start
            },
{
    lemma_sorted_values(s);
    let t = sorted_values(s);
    let v = segments(t, factor, min_cluster_size, gap_scale);
    let w = analysis(s, factor, min_cluster_size, gap_scale);
    lemma_segments_follow_the_data(t, factor, min_cluster_size, gap_scale);
    assert(w == scored(v));
    assert forall|a: int, b: int| 0 <= a < b < w.len() implies ({
        let x = #[trigger] w[a];
        let y = #[trigger] w[b];
        &&& x.start <= x.end <= y.start <= y.end
        &&& x.span_length() > 0 ==> x.start < y.start
    }) by {
        let x = v[a];
        let y = v[b];
        assert(w[a].start == x.start && w[a].end == x.end);
        assert(w[b].start == y.start && w[b].end == y.end);
    }
}

/// An evenly spaced dataset has no gap, for any factor of at least one
/// and any gap scale of at least one.
pub proof fn lemma_even_spacing_has_no_gap(
    s: Seq<i32>,
    d: int,
    factor: Factor,
    min_cluster_size: int,
    gap_scale: int,
)
    requires
        evenly_spaced(s, d),
        factor.wf(),
        factor.num() >= factor.den(),
        gap_scale >= 1,
    ensures
        forall|j: int|
            0 <= j < analysis(s, factor, min_cluster_size, gap_scale).len() ==> !(
            #[trigger] analysis(s, factor, min_cluster_size, gap_scale)[j]).is_gap(),
{
    lemma_even_is_ascending(s, d);
    lemma_even_has_no_wide_pair(s, d, factor, gap_scale);
    lemma_no_wide_pair_no_gap(s, factor, min_cluster_size, gap_scale, 0, 0);
    lemma_spans_follow_the_data(s, factor, min_cluster_size, gap_scale);
    let r = spans(s, factor, min_cluster_size, gap_scale);
    let v = segments(s, factor, min_cluster_size, gap_scale);
    let w = analysis(s, factor, min_cluster_size, gap_scale);
    assert(w == scored(v));
    assert forall|j: int| 0 <= j < w.len() implies !(#[trigger] w[j]).is_gap() by {
        assert(!r[j].is_gap);
        assert(0 <= r[j].first < r[j].last <= s.len() - 1);
        assert(v[j] == anomaly_of(s, r[j]));
        assert(w[j].elements == v[j].elements);
    }
}

/// An evenly spaced dataset of at least two and at least
/// `min_cluster_size` observations is one cluster that holds all of it,
/// when the factor is at most one or the observations are all equal.
pub proof fn lemma_even_spacing_is_one_cluster(
    s: Seq<i32>,
    d: int,
    factor: Factor,
    min_cluster_size: int,
    gap_scale: int,
)
    requires
        evenly_spaced(s, d),
        factor.wf(),
        factor.num() <= factor.den() || d == 0,
        s.len() >= 2,
        s.len() >= min_cluster_size,
    ensures
        analysis(s, factor, min_cluster_size, gap_scale) == seq![whole_cluster(s)],
{
    lemma_even_is_ascending(s, d);
    lemma_even_has_close_pairs(s, d, factor);
    lemma_all_close_analysis(s, factor, min_cluster_size, gap_scale);
}

/// A dataset of equal observations is one cluster with a span length of
/// zero and no standard score, or nothing when it is too small to be a
/// cluster: a density is never computed over a span length of zero.
pub proof fn lemma_equal_observations(
    s: Seq<i32>,
    factor: Factor,
    min_cluster_size: int,
    gap_scale: int,
)
    requires
        factor.wf(),
        forall|i: int| 0 <= i < s.len() ==> #[trigger] s[i] == s[0],
    ensures
        s.len() >= 2 && s.len() >= min_cluster_size ==> {
            &&& analysis(s, factor, min_cluster_size, gap_scale) == seq![whole_cluster(s)]
            &&& whole_cluster(s).span_length() == 0
            &&& whole_cluster(s).z_score == None::<ZScore>
        },
        !(s.len() >= 2 && s.len() >= min_cluster_size) ==> analysis(
            s,
            factor,
            min_cluster_size,
            gap_scale,
        ) == Seq::<AnomalyView>::empty(),
{
    assert(evenly_spaced(s, 0)) by {
        assert forall|i: int| 0 <= i < s.len() - 1 implies #[trigger] distance(s, i) == 0 by {
            assert(s[i] == s[0] && s[i + 1] == s[0]);
        }
    }
    lemma_even_is_ascending(s, 0);
    lemma_even_has_close_pairs(s, 0, factor);
    lemma_all_close_analysis(s, factor, min_cluster_size, gap_scale);
}

/// The clusters are the maximal runs of close pairs that hold at least
/// `min_cluster_size` observations: each of them is reported, and no other
/// cluster is.
pub proof fn lemma_clusters_are_the_maximal_runs(
    s: Seq<i32>,
    factor: Factor,
    min_cluster_size: int,
    gap_scale: int,
    a: int,
    b: int,
)
    ensures
        spans(s, factor, min_cluster_size, gap_scale).contains(cluster_span(a, b)) <==> (
        is_maximal_run(s, factor, a, b) && b - a + 1 >= min_cluster_size),
{
    if s.len() > 0 {
        lemma_clusters_from(s, factor, min_cluster_size, gap_scale, 0, 0, a, b);
    }
}

/// The gaps are the pairs beyond the gap threshold that are not within the
/// cluster threshold: each of them is reported, and no other gap is.
pub proof fn lemma_gaps_are_the_wide_pairs(
    s: Seq<i32>,
    factor: Factor,
    min_cluster_size: int,
    gap_scale: int,
    i: int,
)
    ensures
        spans(s, factor, min_cluster_size, gap_scale).contains(gap_at(i)) <==> (0 <= i < s.len()
            - 1 && !is_close(s, factor, i) && is_wide(s, factor, gap_scale, i)),
{
    lemma_gaps_from(s, factor, min_cluster_size, gap_scale, 0, 0, i);
}

/// Whatever is reported is such a cluster or such a gap.
pub proof fn lemma_spans_are_clusters_and_gaps(
    s: Seq<i32>,
    factor: Factor,
    min_cluster_size: int,
    gap_scale: int,
    j: int,
)
    requires
        0 <= j < spans(s, factor, min_cluster_size, gap_scale).len(),
    ensures
        ({
            let e = spans(s, factor, min_cluster_size, gap_scale)[j];
            if e.is_gap {
                &&& e == gap_at(e.first)
                &&& !is_close(s, factor, e.first)
                &&& is_wide(s, factor, gap_scale, e.first)
            } else {
                &&& e == cluster_span(e.first, e.last)
                &&& is_maximal_run(s, factor, e.first, e.last)
                &&& e.last - e.first + 1 >= min_cluster_size
            }
        }),
{
    let r = spans(s, factor, min_cluster_size, gap_scale);
    let e = r[j];
    assert(r.contains(e));
    lemma_span_shapes(s, factor, min_cluster_size, gap_scale, 0, 0, e);
    lemma_clusters_are_the_maximal_runs(s, factor, min_cluster_size, gap_scale, e.first, e.last);
    lemma_gaps_are_the_wide_pairs(s, factor, min_cluster_size, gap_scale, e.first);
}

/// With a minimum cluster size of one, no run is dropped: every maximal
/// run of close pairs of the sorted dataset is among the scored segments
/// as a cluster with exactly the observations of the run.
pub proof fn lemma_minimum_of_one_keeps_every_run(
    s: Seq<i32>,
    factor: Factor,
    gap_scale: int,
    a: int,
    b: int,
)
    requires
        is_maximal_run(sorted_values(s), factor, a, b),
    ensures
        exists|j: int|
            0 <= j < analysis(s, factor, 1, gap_scale).len() && (#[trigger] analysis(
                s,
                factor,
                1,
                gap_scale,
            )[j]).elements == sorted_values(s).subrange(a, b + 1),
{
    let t = sorted_values(s);
    let r = spans(t, factor, 1, gap_scale);
    let v = segments(t, factor, 1, gap_scale);
    let w = analysis(s, factor, 1, gap_scale);
    lemma_clusters_are_the_maximal_runs(t, factor, 1, gap_scale, a, b);
    let j = choose|j: int| 0 <= j < r.len() && r[j] == cluster_span(a, b);
    assert(v[j] == anomaly_of(t, r[j]));
    assert(w[j].elements == v[j].elements);
}

/// The centroid of a segment lies between its start and its end.
pub proof fn lemma_centroid_lies_within(a: AnomalyView)
    requires
        a.wf(),
    ensures
        a.centroid_denominator() > 0,
        a.start * a.centroid_denominator() <= a.centroid_numerator() <= a.end
            * a.centroid_denominator(),
{
    if !a.is_gap() {
        lemma_sum_between_ends(a.elements);
        assert(a.start * a.elements.len() == a.elements.len() * a.start) by (nonlinear_arith);
        assert(a.end * a.elements.len() == a.elements.len() * a.end) by (nonlinear_arith);
    }
}

/// The standard score of an integer sample is set to zero exactly where
/// the samples do not vary: the radicand is never negative, it is zero for
/// equal samples only, and otherwise the score is
/// `(n * x - sum) / sqrt(n * sum_of_squares - sum * sum)`.
pub proof fn lemma_zero_score_means_no_variation(m: Seq<int>, x: int)
    ensures
        radicand(m) >= 0,
        constant(m) <==> radicand(m) == 0,
        constant(m) ==> standard_score(m, x) == zero_score(),
        !constant(m) ==> standard_score(m, x) == (ZScore::Exact {
            numerator: score_numerator(m.len() as int, crate::scorer::total(m), x) as i128,
            radicand: radicand(m) as u128,
        }),
{
    lemma_radicand_sign(m);
}

/// No two clusters that have a density differ in it.
pub open spec fn densities_agree(v: Seq<AnomalyView>) -> bool {
    forall|a: int, b: int|
        #![trigger v[a], v[b]]
        0 <= a < v.len() && 0 <= b < v.len() && has_density(v[a]) && has_density(v[b])
            ==> same_density(v[a], v[b])
}

/// The three rules for the score of a cluster, of which exactly one
/// applies. It is unset where the cluster has no density. It is zero where
/// the cluster has a density and no two clusters differ in theirs. The
/// cluster is marked as scored by density where it has one and two
/// clusters differ in theirs. Gaps take no part in any of this.
pub proof fn lemma_cluster_score_rules(v: Seq<AnomalyView>, i: int)
    requires
        0 <= i < v.len(),
        !v[i].is_gap(),
    ensures
        densities_agree(v) <==> !densities_vary(v),
        scored(v)[i].z_score is None <==> !has_density(v[i]),
        scored(v)[i].z_score == Some(zero_score()) <==> has_density(v[i]) && densities_agree(v),
        scored(v)[i].z_score == Some(ZScore::Density) <==> has_density(v[i]) && densities_vary(v),
{
}

/// Densities are compared exactly: where two clusters differ in density,
/// however little, no cluster is scored zero, and every cluster that has a
/// density is marked as scored by it.
pub proof fn lemma_differing_densities_are_not_scored_zero(
    v: Seq<AnomalyView>,
    a: int,
    b: int,
    i: int,
)
    requires
        0 <= a < v.len(),
        0 <= b < v.len(),
        has_density(v[a]),
        has_density(v[b]),
        v[a].num_elements() * v[b].span_length() != v[b].num_elements() * v[a].span_length(),
        0 <= i < v.len(),
        !v[i].is_gap(),
    ensures
        has_density(v[i]) ==> scored(v)[i].z_score == Some(ZScore::Density),
        scored(v)[i].z_score != Some(zero_score()),
{
    assert(!same_density(v[a], v[b]));
}

/// Where `gap_scale * factor * factor` is at least one, the cluster
/// threshold does not exceed the gap threshold: no pair of an ascending
/// dataset is both close and wide.
pub proof fn lemma_thresholds_are_ordered(s: Seq<i32>, factor: Factor, gap_scale: int, i: int)
    requires
        ascending(s),
        factor.wf(),
        gap_scale * (factor.num() * factor.num()) >= factor.den() * factor.den(),
        0 <= i < s.len() - 1,
    ensures
        !(is_close(s, factor, i) && is_wide(s, factor, gap_scale, i)),
{
    lemma_total_distance(s);
    let d = distance(s, i);
    let p = pair_count(s);
    let t = total_distance(s);
    let n = factor.num();
    let e = factor.den();
    if is_close(s, factor, i) && is_wide(s, factor, gap_scale, i) {
        assert(gap_scale >= 0) by (nonlinear_arith)
            requires
                gap_scale * (n * n) >= e * e,
                n > 0,
                e > 0,
        ;
        let dp = d * p;
        assert(d * (p * n) == dp * n && d * (p * e) == dp * e) by (nonlinear_arith)
            requires
                dp == d * p,
        ;
        assert(dp >= 0) by (nonlinear_arith)
            requires
                dp == d * p,
                d >= 0,
                p >= 0,
        ;
        assert((dp * n) * (gap_scale * n) <= (t * e) * (gap_scale * n)) by (nonlinear_arith)
            requires
                dp * n <= t * e,
                gap_scale * n >= 0,
        ;
        assert((dp * e) * e > ((gap_scale * n) * t) * e) by (nonlinear_arith)
            requires
                dp * e > (gap_scale * n) * t,
                e > 0,
        ;
        assert(dp * (gap_scale * (n * n)) < dp * (e * e)) by (nonlinear_arith)
            requires
                (dp * n) * (gap_scale * n) <= (t * e) * (gap_scale * n),
                (dp * e) * e > ((gap_scale * n) * t) * e,
        ;
        assert(dp * (gap_scale * (n * n)) >= dp * (e * e)) by (nonlinear_arith)
            requires
                dp >= 0,
                gap_scale * (n * n) >= e * e,
        ;
    }
}

/// A span length is never negative, and it is zero only for a cluster of
/// equal observations; a gap always has a positive one.
pub proof fn lemma_zero_span_means_equal_observations(a: AnomalyView)
    requires
        a.wf(),
    ensures
        a.span_length() >= 0,
        a.span_length() == 0 ==> !a.is_gap() && forall|i: int|
            0 <= i < a.elements.len() ==> #[trigger] a.elements[i] == a.start,
{
    if !a.is_gap() {
        assert(a.elements[0] <= a.elements[a.elements.len() - 1]);
        if a.span_length() == 0 {
            assert forall|i: int| 0 <= i < a.elements.len() implies #[trigger] a.elements[i]
                == a.start by {
                assert(a.elements[0] <= a.elements[i]);
                assert(a.elements[i] <= a.elements[a.elements.len() - 1]);
            }
        }
    }
}

/// Every segment of an ascending dataset is well formed: a cluster runs in
/// ascending order from its start to its end, and a gap lies between two
/// distinct observations.
pub proof fn lemma_segments_are_well_formed(
    s: Seq<i32>,
    factor: Factor,
    min_cluster_size: int,
    gap_scale: int,
    j: int,
)
    requires
        ascending(s),
        factor.wf(),
        gap_scale >= 0,
        0 <= j < segments(s, factor, min_cluster_size, gap_scale).len(),
    ensures
        segments(s, factor, min_cluster_size, gap_scale)[j].wf(),
{
    let r = spans(s, factor, min_cluster_size, gap_scale);
    let e = r[j];
    let a = segments(s, factor, min_cluster_size, gap_scale)[j];
    lemma_spans_follow_the_data(s, factor, min_cluster_size, gap_scale);
    lemma_spans_are_clusters_and_gaps(s, factor, min_cluster_size, gap_scale, j);
    lemma_total_distance(s);
    assert(a == anomaly_of(s, e));
    assert(0 <= e.first < e.last <= s.len() - 1);
    if e.is_gap {
        let d = distance(s, e.first);
        let unit = pair_count(s) * factor.den();
        let limit = (gap_scale * factor.num()) * total_distance(s);
        assert(limit >= 0) by (nonlinear_arith)
            requires
                limit == (gap_scale * factor.num()) * total_distance(s),
                gap_scale >= 0,
                factor.num() > 0,
                total_distance(s) >= 0,
        ;
        assert(d > 0) by (nonlinear_arith)
            requires
                d * unit > limit,
                limit >= 0,
                d >= 0,
        ;
    }
}

/// Two lists hold the same segments, whatever their standard scores.
pub open spec fn same_segments(u: Seq<AnomalyView>, v: Seq<AnomalyView>) -> bool {
    &&& u.len() == v.len()
    &&& forall|i: int|
        0 <= i < u.len() ==> (#[trigger] u[i]).elements == v[i].elements && u[i].start
            == v[i].start && u[i].end == v[i].end
}

/// What the scores are taken from does not depend on earlier scores.
pub proof fn lemma_samples_ignore_scores(u: Seq<AnomalyView>, v: Seq<AnomalyView>)
    requires
        same_segments(u, v),
    ensures
        span_lengths(u) == span_lengths(v),
        densities_vary(u) == densities_vary(v),
    decreases u.len(),
{
    assert(densities_vary(u) == densities_vary(v)) by {
        if densities_vary(u) {
            let (a, b) = choose|a: int, b: int|
                #![trigger u[a], u[b]]
                0 <= a < u.len() && 0 <= b < u.len() && has_density(u[a]) && has_density(u[b])
                    && !same_density(u[a], u[b]);
            assert(u[a].elements == v[a].elements && u[b].elements == v[b].elements);
            assert(has_density(v[a]) && has_density(v[b]) && !same_density(v[a], v[b]));
        }
        if densities_vary(v) {
            let (a, b) = choose|a: int, b: int|
                #![trigger v[a], v[b]]
                0 <= a < v.len() && 0 <= b < v.len() && has_density(v[a]) && has_density(v[b])
                    && !same_density(v[a], v[b]);
            assert(u[a].elements == v[a].elements && u[b].elements == v[b].elements);
            assert(has_density(u[a]) && has_density(u[b]) && !same_density(u[a], u[b]));
        }
    }
    if u.len() > 0 {
        let n = u.len() - 1;
        assert(u[n].elements == v[n].elements);
        assert(same_segments(u.drop_last(), v.drop_last())) by {
            assert forall|i: int| 0 <= i < u.drop_last().len() implies (
            #[trigger] u.drop_last()[i]).elements == v.drop_last()[i].elements
                && u.drop_last()[i].start == v.drop_last()[i].start && u.drop_last()[i].end
                == v.drop_last()[i].end by {
                assert(u[i].elements == v[i].elements);
            }
        }
        lemma_samples_ignore_scores(u.drop_last(), v.drop_last());
    }
}

/// Scoring keeps the number, the order and the observations of the
/// segments, and changes the scores alone. It does not depend on earlier
/// scores, so scoring again changes nothing.
pub proof fn lemma_scoring_is_idempotent(u: Seq<AnomalyView>, v: Seq<AnomalyView>)
    requires
        same_segments(u, v),
    ensures
        same_segments(scored(v), v),
        scored(u) == scored(v),
        scored(scored(v)) == scored(v),
{
    lemma_samples_ignore_scores(u, v);
    assert forall|i: int| 0 <= i < u.len() implies scored(u)[i] == scored(v)[i] by {
        assert(u[i].elements == v[i].elements);
        assert(z_score_of(u, i) == z_score_of(v, i));
    }
    assert(scored(u) =~= scored(v));
    let w = scored(v);
    assert(same_segments(w, v));
    lemma_samples_ignore_scores(w, v);
    assert forall|i: int| 0 <= i < w.len() implies scored(w)[i] == w[i] by {
        assert(w[i].elements == v[i].elements);
        assert(z_score_of(w, i) == z_score_of(v, i));
    }
    assert(scored(w) =~= w);
}

} // verus!
