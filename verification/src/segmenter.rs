//! The segmenter: one scan over the neighbouring pairs of an ascending
//! dataset, which reports qualifying clusters and notable gaps.

use vstd::prelude::*;
use crate::anomaly::{all_wf, lemma_views_push, views, Anomaly};
use crate::factor::Factor;
use crate::model::{
    anomalies_of, ascending, distance, gap_span, is_close, is_wide, lemma_anomalies_of_push,
    lemma_total_distance, pair_count, run_span, segments, spans, spans_from, total_distance, Span,
};

verus! {

/// The largest distance between two observations.
const DISTANCE_LIMIT: u128 = 0xffff_ffff;

/// The largest product of a number of pairs and one part of the factor.
const UNIT_LIMIT: u128 = 0xffff_ffff_ffff_ffff * 0xffff_ffff;

/// Both thresholds of one dataset, multiplied through by the denominators:
/// a distance `d` is close when `d * close_unit <= close_limit` and wide
/// when `d * wide_unit > wide_limit`.
struct Thresholds {
    close_unit: u128,
    close_limit: u128,
    wide_unit: u128,
    wide_limit: u128,
}

impl Thresholds {
    /// The four numbers are those of the dataset `s`.
    spec fn of(&self, s: Seq<i32>, factor: Factor, gap_scale: int) -> bool {
        &&& self.close_unit == pair_count(s) * factor.num()
        &&& self.close_limit == total_distance(s) * factor.den()
        &&& self.wide_unit == pair_count(s) * factor.den()
        &&& self.wide_limit == (gap_scale * factor.num()) * total_distance(s)
        &&& self.close_unit <= UNIT_LIMIT
        &&& self.wide_unit <= UNIT_LIMIT
    }

    /// Derives the thresholds from the mean distance and the factor.
    fn new(values: &Vec<i32>, factor: Factor, gap_scale: u32) -> (t: Thresholds)
        requires
            values@.len() >= 2,
            ascending(values@),
        ensures
            t.of(values@, factor, gap_scale as int),
    {
        proof {
            lemma_total_distance(values@);
        }
        let n: usize = values.len();
        let pairs: u128 = (n - 1) as u128;
        let total: u128 = (values[n - 1] as i64 - values[0] as i64) as u128;
        let numerator: u128 = factor.numerator() as u128;
        let denominator: u128 = factor.denominator() as u128;
        assert(pairs * numerator <= UNIT_LIMIT && pairs * denominator <= UNIT_LIMIT)
            by (nonlinear_arith)
            requires
                0 <= pairs <= 0xffff_ffff_ffff_ffff,
                0 <= numerator <= 0xffff_ffff,
                0 <= denominator <= 0xffff_ffff,
                UNIT_LIMIT == 0xffff_ffff_ffff_ffff * 0xffff_ffff,
        ;
        assert(total * denominator <= 0xffff_ffff * 0xffff_ffff) by (nonlinear_arith)
            requires
                0 <= total <= 0xffff_ffff,
                0 <= denominator <= 0xffff_ffff,
        ;
        assert(gap_scale * numerator <= 0xffff_ffff * 0xffff_ffff) by (nonlinear_arith)
            requires
                0 <= gap_scale <= 0xffff_ffff,
                0 <= numerator <= 0xffff_ffff,
        ;
        let scaled: u128 = gap_scale as u128 * numerator;
        assert(scaled * total <= (0xffff_ffff * 0xffff_ffff) * 0xffff_ffff) by (nonlinear_arith)
            requires
                0 <= scaled <= 0xffff_ffff * 0xffff_ffff,
                0 <= total <= 0xffff_ffff,
        ;
        Thresholds {
            close_unit: pairs * numerator,
            close_limit: total * denominator,
            wide_unit: pairs * denominator,
            wide_limit: scaled * total,
        }
    }

    /// Whether pair `i`, which is `d` wide, lies within the cluster
    /// threshold.
    fn close(
        &self,
        d: u128,
        Ghost(s): Ghost<Seq<i32>>,
        Ghost(factor): Ghost<Factor>,
        Ghost(gap_scale): Ghost<int>,
        Ghost(i): Ghost<int>,
    ) -> (r: bool)
        requires
            self.of(s, factor, gap_scale),
            d == distance(s, i),
            d <= DISTANCE_LIMIT,
        ensures
            r == is_close(s, factor, i),
    {
        assert(d * self.close_unit <= DISTANCE_LIMIT * UNIT_LIMIT) by (nonlinear_arith)
            requires
                0 <= d <= DISTANCE_LIMIT,
                0 <= self.close_unit <= UNIT_LIMIT,
        ;
        d * self.close_unit <= self.close_limit
    }

    /// Whether pair `i`, which is `d` wide, lies beyond the gap threshold.
    fn wide(
        &self,
        d: u128,
        Ghost(s): Ghost<Seq<i32>>,
        Ghost(factor): Ghost<Factor>,
        Ghost(gap_scale): Ghost<int>,
        Ghost(i): Ghost<int>,
    ) -> (r: bool)
        requires
            self.of(s, factor, gap_scale),
            d == distance(s, i),
            d <= DISTANCE_LIMIT,
        ensures
            r == is_wide(s, factor, gap_scale, i),
            r ==> d > 0,
    {
        assert(d * self.wide_unit <= DISTANCE_LIMIT * UNIT_LIMIT) by (nonlinear_arith)
            requires
                0 <= d <= DISTANCE_LIMIT,
                0 <= self.wide_unit <= UNIT_LIMIT,
        ;
        assert(d * self.wide_unit > self.wide_limit ==> d > 0) by (nonlinear_arith)
            requires
                self.wide_limit >= 0,
        ;
        d * self.wide_unit > self.wide_limit
    }
}

/// Appends the cluster of the run from position `run` to position `at`,
/// whose observations `cluster` holds, if the run qualifies.
fn report_run(
    out: &mut Vec<Anomaly>,
    cluster: &Vec<i32>,
    min_cluster_size: usize,
    Ghost(s): Ghost<Seq<i32>>,
    Ghost(done): Ghost<Seq<Span>>,
    Ghost(run): Ghost<int>,
    Ghost(at): Ghost<int>,
)
    requires
        ascending(s),
        0 <= run <= at < s.len(),
        cluster@ == (if run < at {
            s.subrange(run, at + 1)
        } else {
            Seq::<i32>::empty()
        }),
        all_wf(old(out)@),
        views(old(out)@) == anomalies_of(s, done),
    ensures
        all_wf(final(out)@),
        views(final(out)@) == anomalies_of(s, done + run_span(min_cluster_size as int, run, at)),
{
    if !cluster.is_empty() && cluster.len() >= min_cluster_size {
        let ghost span = Span { first: run, last: at, is_gap: false };
        proof {
            assert(ascending(cluster@));
            assert(cluster@.first() == s[run]);
            assert(cluster@.last() == s[at]);
            assert(done + run_span(min_cluster_size as int, run, at) =~= done.push(span));
        }
        let found = Anomaly::new(cluster.as_slice());
        proof {
            lemma_views_push(out@, found);
            lemma_anomalies_of_push(s, done, span);
        }
        out.push(found);
    } else {
        assert(done + run_span(min_cluster_size as int, run, at) =~= done);
    }
}

/// Appends the gap between the observations at position `at` and behind.
fn report_gap(
    out: &mut Vec<Anomaly>,
    start: i32,
    end: i32,
    Ghost(s): Ghost<Seq<i32>>,
    Ghost(done): Ghost<Seq<Span>>,
    Ghost(at): Ghost<int>,
)
    requires
        0 <= at,
        at + 1 < s.len(),
        start == s[at],
        end == s[at + 1],
        start < end,
        all_wf(old(out)@),
        views(old(out)@) == anomalies_of(s, done),
    ensures
        all_wf(final(out)@),
        views(final(out)@) == anomalies_of(
            s,
            done.push(Span { first: at, last: at + 1, is_gap: true }),
        ),
{
    let found = Anomaly::gap(start, end);
    proof {
        lemma_views_push(out@, found);
        lemma_anomalies_of_push(s, done, Span { first: at, last: at + 1, is_gap: true });
    }
    out.push(found);
}

/// Splits an ascending dataset into clusters and gaps.
///
/// Neighbours no further apart than `mean_distance / factor` belong to one
/// run; a run is reported as a cluster when it holds at least
/// `min_cluster_size` observations and is dropped otherwise. A pair further
/// apart than `factor * mean_distance * gap_scale` is reported as a gap.
/// Fewer than two observations give no segment at all.
pub fn segment(values: &Vec<i32>, factor: Factor, min_cluster_size: usize, gap_scale: u32) -> (out:
    Vec<Anomaly>)
    requires
        ascending(values@),
        factor.wf(),
    ensures
        all_wf(out@),
        views(out@) == segments(values@, factor, min_cluster_size as int, gap_scale as int),
{
    let mut out: Vec<Anomaly> = Vec::new();
    let n: usize = values.len();
    let ghost s = values@;
    let ghost min = min_cluster_size as int;
    let ghost k = gap_scale as int;
    let ghost mut run: int = 0;
    let ghost mut done: Seq<Span> = Seq::empty();
    assert(views(out@) =~= anomalies_of(s, done));
    if n < 2 {
        assert(spans(s, factor, min, k) =~= done);
        return out;
    }
    proof {
        lemma_total_distance(s);
    }
    let thresholds = Thresholds::new(values, factor, gap_scale);
    let mut current_cluster: Vec<i32> = Vec::new();
    let mut i: usize = 0;
    while i < n - 1
        invariant
            s == values@,
            n == s.len(),
            n >= 2,
            ascending(s),
            min == min_cluster_size,
            k == gap_scale,
            thresholds.of(s, factor, k),
            forall|j: int|
                0 <= j < n - 1 ==> 0 <= #[trigger] distance(s, j) <= total_distance(s) <= u32::MAX,
            0 <= run <= i <= n - 1,
            current_cluster@ == (if run < i {
                s.subrange(run, i as int + 1)
            } else {
                Seq::<i32>::empty()
            }),
            done + spans_from(s, factor, min, k, run, i as int) == spans(s, factor, min, k),
            views(out@) == anomalies_of(s, done),
            all_wf(out@),
        decreases n - 1 - i,
    {
        let ghost at = i as int;
        assert(0 <= distance(s, at) <= total_distance(s));
        let d: u128 = (values[i + 1] as i64 - values[i] as i64) as u128;
        if thresholds.close(d, Ghost(s), Ghost(factor), Ghost(k), Ghost(at)) {
            if current_cluster.is_empty() {
                current_cluster.push(values[i]);
            }
            current_cluster.push(values[i + 1]);
            assert(current_cluster@ =~= s.subrange(run, at + 2));
        } else {
            let ghost before = done;
            report_run(
                &mut out,
                &current_cluster,
                min_cluster_size,
                Ghost(s),
                Ghost(done),
                Ghost(run),
                Ghost(at),
            );
            current_cluster.clear();
            proof {
                done = done + run_span(min, run, at);
            }
            if thresholds.wide(d, Ghost(s), Ghost(factor), Ghost(k), Ghost(at)) {
                report_gap(
                    &mut out,
                    values[i],
                    values[i + 1],
                    Ghost(s),
                    Ghost(done),
                    Ghost(at),
                );
                proof {
                    done = done.push(Span { first: at, last: at + 1, is_gap: true });
                }
            }
            proof {
                assert(done =~= before + run_span(min, run, at) + gap_span(s, factor, k, at));
                assert(before + (run_span(min, run, at) + gap_span(s, factor, k, at) + spans_from(
                    s,
                    factor,
                    min,
                    k,
                    at + 1,
                    at + 1,
                )) =~= done + spans_from(s, factor, min, k, at + 1, at + 1));
                run = at + 1;
            }
        }
        i = i + 1;
    }
    report_run(
        &mut out,
        &current_cluster,
        min_cluster_size,
        Ghost(s),
        Ghost(done),
        Ghost(run),
        Ghost(i as int),
    );
    out
}

} // verus!
