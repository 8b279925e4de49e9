//! The scorer: which rule gives the standard score of each segment, and
//! the score itself where integers can hold it.
//!
//! Span lengths are integers. Their standard score `(x - mean) / deviation`
//! over `n` samples equals
//! `(n * x - sum) / sqrt(n * sum_of_squares - sum * sum)`, which needs
//! integers only, and the score of a gap is kept in that exact form.
//!
//! Densities are fractions. Whether two of them are equal is decided
//! exactly, by cross-multiplication, and with it whether the densities
//! vary at all. Where they do, a cluster is marked as scored by density,
//! and the exact difference of two densities is offered as a fraction; the
//! mean and the deviation of fractions are left to floating point.

use vstd::prelude::*;
use crate::anomaly::{all_wf, views, Anomaly, AnomalyView, Fraction, ZScore};

verus! {

/// The largest number of observations that the statistics are computed
/// for within machine integers.
pub const MAX_VALUES: usize = 268_435_456;

/// The largest number of segments that `MAX_VALUES` observations can give.
pub const MAX_SEGMENTS: usize = 536_870_912;

/// The sum of the samples.
pub open spec fn total(m: Seq<int>) -> int
    decreases m.len(),
{
    if m.len() == 0 {
        0
    } else {
        total(m.drop_last()) + m.last()
    }
}

/// The sum of the squares of the samples.
pub open spec fn total_squares(m: Seq<int>) -> int
    decreases m.len(),
{
    if m.len() == 0 {
        0
    } else {
        total_squares(m.drop_last()) + m.last() * m.last()
    }
}

/// The numerator of the standard score of `x` among `count` samples.
pub open spec fn score_numerator(count: int, sum: int, x: int) -> int {
    count * x - sum
}

/// The radicand of the standard score among `count` samples: the
/// population variance times the square of `count`.
pub open spec fn score_radicand(count: int, sum: int, square_sum: int) -> int {
    count * square_sum - sum * sum
}

/// The score of zero.
pub open spec fn zero_score() -> ZScore {
    ZScore::Exact { numerator: 0, radicand: 1 }
}

/// The standard score of `x` against the samples `m`. Where the samples do
/// not vary the score is zero.
pub open spec fn standard_score(m: Seq<int>, x: int) -> ZScore {
    let numerator = score_numerator(m.len() as int, total(m), x);
    let radicand = score_radicand(m.len() as int, total(m), total_squares(m));
    if radicand > 0 {
        ZScore::Exact { numerator: numerator as i128, radicand: radicand as u128 }
    } else {
        zero_score()
    }
}

/// The span lengths of all segments.
pub open spec fn span_lengths(v: Seq<AnomalyView>) -> Seq<int>
    decreases v.len(),
{
    if v.len() == 0 {
        Seq::empty()
    } else {
        span_lengths(v.drop_last()).push(v.last().span_length())
    }
}

/// A cluster has a density, `num_elements / span_length`, when its
/// observations are not all equal.
pub open spec fn has_density(a: AnomalyView) -> bool {
    !a.is_gap() && a.span_length() > 0
}

/// The numerator of the density of `a` minus the density of `b`, over the
/// denominator `a.span_length() * b.span_length()`.
pub open spec fn density_difference_numerator(a: AnomalyView, b: AnomalyView) -> int {
    a.num_elements() * b.span_length() - b.num_elements() * a.span_length()
}

/// Two clusters have exactly the same density.
pub open spec fn same_density(a: AnomalyView, b: AnomalyView) -> bool {
    a.num_elements() * b.span_length() == b.num_elements() * a.span_length()
}

/// The densities vary: two clusters that have a density differ in it.
pub open spec fn densities_vary(v: Seq<AnomalyView>) -> bool {
    exists|i: int, j: int|
        #![trigger v[i], v[j]]
        0 <= i < v.len() && 0 <= j < v.len() && has_density(v[i]) && has_density(v[j])
            && !same_density(v[i], v[j])
}

/// The standard score of segment `i`.
///
/// A gap is scored by its span length against the span lengths of all
/// segments. A cluster of equal observations has no density and gets no
/// score. Any other cluster is scored by its density against the
/// densities of all clusters that have one: zero where these are all
/// equal, and the mark `ZScore::Density` where they vary.
pub open spec fn z_score_of(v: Seq<AnomalyView>, i: int) -> Option<ZScore> {
    if v[i].is_gap() {
        Some(standard_score(span_lengths(v), v[i].span_length()))
    } else if !has_density(v[i]) {
        None
    } else if densities_vary(v) {
        Some(ZScore::Density)
    } else {
        Some(zero_score())
    }
}

/// The segments with the standard score of each filled in.
pub open spec fn scored(v: Seq<AnomalyView>) -> Seq<AnomalyView> {
    Seq::new(v.len(), |i: int| v[i].with_z_score(z_score_of(v, i)))
}

/// One more sample adds itself to the sum and its square to the sum of
/// squares.
pub proof fn lemma_total_push(m: Seq<int>, x: int)
    ensures
        total(m.push(x)) == total(m) + x,
        total_squares(m.push(x)) == total_squares(m) + x * x,
{
    assert(m.push(x).drop_last() =~= m);
}

/// One more segment adds its span length to the samples.
pub proof fn lemma_span_lengths_step(v: Seq<AnomalyView>, i: int)
    requires
        0 <= i < v.len(),
    ensures
        span_lengths(v.take(i + 1)) == span_lengths(v.take(i)).push(v[i].span_length()),
{
    assert(v.take(i + 1).drop_last() =~= v.take(i));
}

/// There is one span length for each segment.
pub proof fn lemma_span_lengths_len(v: Seq<AnomalyView>)
    ensures
        span_lengths(v).len() == v.len(),
    decreases v.len(),
{
    if v.len() > 0 {
        lemma_span_lengths_len(v.drop_last());
    }
}

/// Two densities that equal a third one are equal.
pub proof fn lemma_same_density_is_transitive(a: AnomalyView, b: AnomalyView, c: AnomalyView)
    requires
        has_density(c),
        same_density(a, c),
        same_density(b, c),
    ensures
        same_density(a, b),
{
    let na = a.num_elements() as int;
    let nb = b.num_elements() as int;
    let nc = c.num_elements() as int;
    let sa = a.span_length();
    let sb = b.span_length();
    let sc = c.span_length();
    assert(na * sb == nb * sa) by (nonlinear_arith)
        requires
            na * sc == nc * sa,
            nb * sc == nc * sb,
            sc > 0,
    {
        assert((na * sb) * sc == (na * sc) * sb);
        assert((nb * sa) * sc == (nb * sc) * sa);
        assert((nc * sa) * sb == (nc * sb) * sa);
    }
}

/// The running count, sum and sum of squares of a list of samples.
struct Tally {
    count: u64,
    sum: u128,
    square_sum: u128,
}

impl Tally {
    /// The three numbers are those of the samples `m`.
    spec fn summarises(&self, m: Seq<int>) -> bool {
        &&& self.count == m.len()
        &&& self.sum == total(m)
        &&& self.square_sum == total_squares(m)
    }

    /// The tally of no samples.
    fn new() -> (r: Tally)
        ensures
            r.summarises(Seq::empty()),
    {
        Tally { count: 0, sum: 0, square_sum: 0 }
    }

    /// Takes one more sample in.
    fn add(&mut self, x: u64, Ghost(m): Ghost<Seq<int>>)
        requires
            old(self).summarises(m),
            m.len() < u64::MAX,
            total(m) + x <= u128::MAX,
            total_squares(m) + x * x <= u128::MAX,
        ensures
            final(self).summarises(m.push(x as int)),
    {
        proof {
            lemma_total_push(m, x as int);
        }
        let wide: u128 = x as u128;
        assert(wide * wide == x * x);
        self.count = self.count + 1;
        self.sum = self.sum + wide;
        self.square_sum = self.square_sum + wide * wide;
    }

    /// The standard score of `x` against the samples taken in.
    fn standard_score(&self, x: u64, Ghost(m): Ghost<Seq<int>>) -> (z: ZScore)
        requires
            self.summarises(m),
            m.len() * x <= i128::MAX,
            total(m) <= i128::MAX,
            total_squares(m) <= i128::MAX,
            m.len() * total_squares(m) <= i128::MAX,
            total(m) * total(m) <= i128::MAX,
            0 <= total(m),
            0 <= total_squares(m),
        ensures
            z == standard_score(m, x as int),
    {
        let count: i128 = self.count as i128;
        let sum: i128 = self.sum as i128;
        assert(count * (x as i128) == m.len() * x);
        assert(0 <= count * (self.square_sum as i128) == m.len() * total_squares(m))
            by (nonlinear_arith)
            requires
                count == m.len(),
                self.square_sum as i128 == total_squares(m),
                0 <= total_squares(m),
        ;
        assert(0 <= sum * sum == total(m) * total(m)) by (nonlinear_arith)
            requires
                sum == total(m),
        ;
        let numerator: i128 = count * (x as i128) - sum;
        let radicand: i128 = count * (self.square_sum as i128) - sum * sum;
        if radicand > 0 {
            ZScore::Exact { numerator, radicand: radicand as u128 }
        } else {
            ZScore::Exact { numerator: 0, radicand: 1 }
        }
    }
}

/// Replaces the standard score of record `i` and leaves the rest alone.
fn set_score(segments: &mut Vec<Anomaly>, i: usize, z_score: Option<ZScore>)
    requires
        i < old(segments)@.len(),
        old(segments)@[i as int].wf(),
    ensures
        final(segments)@.len() == old(segments)@.len(),
        final(segments)@[i as int].wf(),
        final(segments)@[i as int]@ == old(segments)@[i as int]@.with_z_score(z_score),
        forall|j: int|
            0 <= j < old(segments)@.len() && j != i ==> final(segments)@[j] == old(segments)@[j],
{
    segments[i].set_z_score(z_score);
}

/// The largest span length: the range of the observations.
const SPAN_LIMIT: u128 = 4_294_967_295;

/// The square of `SPAN_LIMIT`.
const SPAN_SQUARE_LIMIT: u128 = 18_446_744_065_119_617_025;

/// The exact difference between the densities of two clusters that have
/// one: the density of `a` minus the density of `b`. Its numerator is zero
/// exactly where the two densities are equal.
pub fn density_difference(a: &Anomaly, b: &Anomaly) -> (r: Fraction)
    requires
        a.wf(),
        b.wf(),
        has_density(a@),
        has_density(b@),
    ensures
        r.numerator == density_difference_numerator(a@, b@),
        r.denominator == a@.span_length() * b@.span_length(),
        r.denominator > 0,
        r.numerator == 0 <==> same_density(a@, b@),
{
    let size_a: i128 = a.num_elements() as i128;
    let size_b: i128 = b.num_elements() as i128;
    let span_a: i64 = a.span_length();
    let span_b: i64 = b.span_length();
    assert(0 <= size_a * (span_b as i128) <= 0xffff_ffff_ffff_ffff * 0xffff_ffff
        && 0 <= size_b * (span_a as i128) <= 0xffff_ffff_ffff_ffff * 0xffff_ffff
        && 0 < (span_a as u64) * (span_b as u64) <= 0xffff_ffff * 0xffff_ffff)
        by (nonlinear_arith)
        requires
            0 <= size_a <= 0xffff_ffff_ffff_ffff,
            0 <= size_b <= 0xffff_ffff_ffff_ffff,
            0 < span_a <= 0xffff_ffff,
            0 < span_b <= 0xffff_ffff,
    ;
    Fraction {
        numerator: size_a * (span_b as i128) - size_b * (span_a as i128),
        denominator: (span_a as u64) * (span_b as u64),
    }
}

/// Fills in the standard score of every segment.
///
/// Span lengths are scored against the span lengths of all segments,
/// clusters and gaps together, and a gap gets that score. A cluster of
/// equal observations is left without a score. The other clusters get a
/// score of zero where their densities are all equal, and are marked as
/// scored by density where these vary.
pub fn score(segments: &mut Vec<Anomaly>)
    requires
        all_wf(old(segments)@),
        old(segments)@.len() <= MAX_SEGMENTS,
    ensures
        all_wf(final(segments)@),
        final(segments)@.len() == old(segments)@.len(),
        views(final(segments)@) == scored(views(old(segments)@)),
{
    let ghost orig = views(segments@);
    let count: usize = segments.len();
    let mut spans = Tally::new();
    let mut reference: Option<usize> = None;
    let mut vary: bool = false;
    let mut i: usize = 0;
    proof {
        assert(orig.take(0) =~= Seq::<AnomalyView>::empty());
    }
    while i < count
        invariant
            count == segments@.len(),
            count <= MAX_SEGMENTS,
            orig == views(segments@),
            all_wf(segments@),
            0 <= i <= count,
            spans.summarises(span_lengths(orig.take(i as int))),
            0 <= total(span_lengths(orig.take(i as int))) <= i * SPAN_LIMIT,
            0 <= total_squares(span_lengths(orig.take(i as int))) <= i * SPAN_SQUARE_LIMIT,
            reference is None ==> !vary && forall|j: int|
                0 <= j < i ==> !has_density(#[trigger] orig[j]),
            reference matches Some(r) ==> r < i && has_density(orig[r as int]),
            vary ==> densities_vary(orig),
            !vary ==> (reference matches Some(r) ==> forall|j: int|
                0 <= j < i && has_density(#[trigger] orig[j]) ==> same_density(
                    orig[j],
                    orig[r as int],
                )),
        decreases count - i,
    {
        let ghost at = i as int;
        proof {
            lemma_span_lengths_step(orig, at);
            lemma_span_lengths_len(orig.take(at));
            assert(segments@[at].wf());
            assert(orig[at] == segments@[at]@);
        }
        let span: i64 = segments[i].span_length();
        let num_elements: usize = segments[i].num_elements();
        proof {
            lemma_total_push(span_lengths(orig.take(at)), span as int);
            assert(span * span <= SPAN_SQUARE_LIMIT) by (nonlinear_arith)
                requires
                    0 <= span <= 4_294_967_295,
                    SPAN_SQUARE_LIMIT == 18_446_744_065_119_617_025,
            ;
        }
        spans.add(span as u64, Ghost(span_lengths(orig.take(at))));
        if num_elements > 0 && span > 0 {
            match reference {
                None => {
                    reference = Some(i);
                },
                Some(r) => {
                    assert(segments@[r as int].wf());
                    assert(orig[r as int] == segments@[r as int]@);
                    let difference = density_difference(&segments[i], &segments[r]);
                    if difference.numerator != 0 {
                        vary = true;
                        assert(has_density(orig[at]) && has_density(orig[r as int])
                            && !same_density(orig[at], orig[r as int]));
                    }
                },
            }
        }
        i = i + 1;
    }
    proof {
        assert(orig.take(count as int) =~= orig);
        lemma_span_lengths_len(orig);
        if !vary && densities_vary(orig) {
            let (a, b) = choose|a: int, b: int|
                #![trigger orig[a], orig[b]]
                0 <= a < orig.len() && 0 <= b < orig.len() && has_density(orig[a])
                    && has_density(orig[b]) && !same_density(orig[a], orig[b]);
            let r = reference->0 as int;
            lemma_same_density_is_transitive(orig[a], orig[b], orig[r]);
        }
    }
    let ghost all_spans = span_lengths(orig);
    proof {
        assert(all_spans.len() * total_squares(all_spans) <= i128::MAX) by (nonlinear_arith)
            requires
                0 <= all_spans.len() <= 536_870_912,
                0 <= total_squares(all_spans) <= 536_870_912 * 18_446_744_065_119_617_025,
        ;
        assert(total(all_spans) * total(all_spans) <= i128::MAX) by (nonlinear_arith)
            requires
                0 <= total(all_spans) <= 536_870_912 * 4_294_967_295,
        ;
    }
    let mut j: usize = 0;
    while j < count
        invariant
            count == segments@.len(),
            count == orig.len(),
            count <= MAX_SEGMENTS,
            all_wf(segments@),
            0 <= j <= count,
            all_spans == span_lengths(orig),
            spans.summarises(all_spans),
            all_spans.len() <= count,
            0 <= total(all_spans) <= i128::MAX,
            0 <= total_squares(all_spans) <= i128::MAX,
            all_spans.len() * total_squares(all_spans) <= i128::MAX,
            total(all_spans) * total(all_spans) <= i128::MAX,
            vary == densities_vary(orig),
            forall|k: int| 0 <= k < j ==> (#[trigger] segments@[k])@ == scored(orig)[k],
            forall|k: int| j <= k < count ==> (#[trigger] segments@[k])@ == orig[k],
        decreases count - j,
    {
        let ghost at = j as int;
        proof {
            assert(segments@[at].wf());
            assert(segments@[at]@ == orig[at]);
        }
        let span: i64 = segments[j].span_length();
        let num_elements: usize = segments[j].num_elements();
        let z_score: Option<ZScore> = if num_elements == 0 {
            assert(all_spans.len() * span <= i128::MAX) by (nonlinear_arith)
                requires
                    0 <= all_spans.len() <= 536_870_912,
                    0 <= span <= 4_294_967_295,
            ;
            Some(spans.standard_score(span as u64, Ghost(all_spans)))
        } else if span == 0 {
            None
        } else if vary {
            Some(ZScore::Density)
        } else {
            Some(ZScore::Exact { numerator: 0, radicand: 1 })
        };
        assert(z_score == z_score_of(orig, at));
        set_score(segments, j, z_score);
        j = j + 1;
    }
    assert(views(segments@) =~= scored(orig));
}

} // verus!
