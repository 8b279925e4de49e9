//! The mathematical model of the segmentation: distances between
//! neighbouring observations, the two thresholds, and the index spans that
//! a left-to-right scan reports.
//!
//! The mean distance is a fraction, and so is the factor. Every comparison
//! against a threshold is therefore stated with both sides multiplied
//! through by the denominators, which keeps the model exact.

use vstd::prelude::*;
use crate::anomaly::AnomalyView;
use crate::factor::Factor;

verus! {

/// The observations are in ascending order; equal neighbours are allowed.
pub open spec fn ascending(s: Seq<i32>) -> bool {
    forall|i: int, j: int| 0 <= i <= j < s.len() ==> s[i] <= s[j]
}

/// The distance between observation `i` and its right neighbour.
pub open spec fn distance(s: Seq<i32>, i: int) -> int {
    s[i + 1] - s[i]
}

/// The sum of the distances of the first `n` neighbouring pairs.
pub open spec fn sum_distances(s: Seq<i32>, n: int) -> int
    decreases n,
{
    if n <= 0 {
        0
    } else {
        sum_distances(s, n - 1) + distance(s, n - 1)
    }
}

/// The number of neighbouring pairs.
pub open spec fn pair_count(s: Seq<i32>) -> int {
    s.len() - 1
}

/// The sum of all distances between neighbours. Divided by `pair_count`
/// it is the mean distance.
pub open spec fn total_distance(s: Seq<i32>) -> int {
    sum_distances(s, pair_count(s))
}

/// Pair `i` lies within the cluster threshold:
/// `distance <= mean_distance / factor`, that is
/// `distance * pair_count * numerator <= total_distance * denominator`.
pub open spec fn is_close(s: Seq<i32>, factor: Factor, i: int) -> bool {
    distance(s, i) * (pair_count(s) * factor.num()) <= total_distance(s) * factor.den()
}

/// Pair `i` lies beyond the gap threshold:
/// `distance > factor * mean_distance * gap_scale`, that is
/// `distance * pair_count * denominator > gap_scale * numerator * total_distance`.
pub open spec fn is_wide(s: Seq<i32>, factor: Factor, gap_scale: int, i: int) -> bool {
    distance(s, i) * (pair_count(s) * factor.den()) > (gap_scale * factor.num())
        * total_distance(s)
}

/// A reported stretch of the dataset, by the positions of its first and
/// last observation. A gap spans two neighbours; a cluster spans a run.
pub struct Span {
    pub first: int,
    pub last: int,
    pub is_gap: bool,
}

/// The run of close pairs that started at `run` and ends at `i`, reported
/// as a cluster when it holds at least two observations and at least
/// `min_cluster_size` of them.
pub open spec fn run_span(min_cluster_size: int, run: int, i: int) -> Seq<Span> {
    if run < i && i - run + 1 >= min_cluster_size {
        seq![Span { first: run, last: i, is_gap: false }]
    } else {
        Seq::empty()
    }
}

/// Pair `i`, reported as a gap when it lies beyond the gap threshold.
pub open spec fn gap_span(s: Seq<i32>, factor: Factor, gap_scale: int, i: int) -> Seq<Span> {
    if is_wide(s, factor, gap_scale, i) {
        seq![Span { first: i, last: i + 1, is_gap: true }]
    } else {
        Seq::empty()
    }
}

/// What the scan reports from pair `i` on, when the run of close pairs that
/// is still open began at position `run` (`run == i` when none is open).
///
/// A close pair extends the run. Any other pair ends it: the run is
/// reported if it qualifies and dropped if it does not, then the pair
/// itself is reported if it is a gap, and a new run may begin behind it.
/// A run that is still open at the end of the data is reported likewise.
pub open spec fn spans_from(
    s: Seq<i32>,
    factor: Factor,
    min_cluster_size: int,
    gap_scale: int,
    run: int,
    i: int,
) -> Seq<Span>
    decreases s.len() - i,
{
    if i + 1 >= s.len() {
        run_span(min_cluster_size, run, i)
    } else if is_close(s, factor, i) {
        spans_from(s, factor, min_cluster_size, gap_scale, run, i + 1)
    } else {
        run_span(min_cluster_size, run, i) + gap_span(s, factor, gap_scale, i) + spans_from(
            s,
            factor,
            min_cluster_size,
            gap_scale,
            i + 1,
            i + 1,
        )
    }
}

/// Everything the scan reports of a dataset, in the order of the scan.
pub open spec fn spans(s: Seq<i32>, factor: Factor, min_cluster_size: int, gap_scale: int) -> Seq<
    Span,
> {
    spans_from(s, factor, min_cluster_size, gap_scale, 0, 0)
}

/// The unscored segment that a span stands for: a cluster lists the
/// observations of its run, a gap only names its two bounds.
pub open spec fn anomaly_of(s: Seq<i32>, span: Span) -> AnomalyView {
    AnomalyView {
        elements: if span.is_gap {
            Seq::empty()
        } else {
            s.subrange(span.first, span.last + 1)
        },
        start: s[span.first],
        end: s[span.last],
        z_score: None,
    }
}

/// The unscored segments that a sequence of spans stands for.
pub open spec fn anomalies_of(s: Seq<i32>, spans: Seq<Span>) -> Seq<AnomalyView> {
    Seq::new(spans.len(), |i: int| anomaly_of(s, spans[i]))
}

/// One more span stands for one more segment at the end.
pub proof fn lemma_anomalies_of_push(s: Seq<i32>, spans: Seq<Span>, span: Span)
    ensures
        anomalies_of(s, spans.push(span)) == anomalies_of(s, spans).push(anomaly_of(s, span)),
{
    assert(anomalies_of(s, spans.push(span)) =~= anomalies_of(s, spans).push(
        anomaly_of(s, span),
    ));
}

/// The unscored segments of a dataset, in the order of the scan.
pub open spec fn segments(
    s: Seq<i32>,
    factor: Factor,
    min_cluster_size: int,
    gap_scale: int,
) -> Seq<AnomalyView> {
    anomalies_of(s, spans(s, factor, min_cluster_size, gap_scale))
}

/// The distances of an ascending dataset telescope: the first `n` of them
/// add up to the distance between observation `n` and the first one.
pub proof fn lemma_sum_distances_telescopes(s: Seq<i32>, n: int)
    requires
        0 <= n < s.len(),
    ensures
        sum_distances(s, n) == s[n] - s[0],
    decreases n,
{
    if n > 0 {
        lemma_sum_distances_telescopes(s, n - 1);
    }
}

/// The total distance is the range of the data, and no single distance of
/// an ascending dataset is negative or exceeds it.
pub proof fn lemma_total_distance(s: Seq<i32>)
    requires
        s.len() >= 1,
        ascending(s),
    ensures
        total_distance(s) == s[s.len() - 1] - s[0],
        0 <= total_distance(s) <= u32::MAX,
        forall|i: int|
            0 <= i < s.len() - 1 ==> 0 <= #[trigger] distance(s, i) <= total_distance(s),
{
    lemma_sum_distances_telescopes(s, s.len() - 1);
}

} // verus!
