//! The record of one detected segment: a cluster of observations or a gap
//! between two neighbours.

use vstd::prelude::*;
use vstd::slice::slice_to_vec;
use crate::model::ascending;

verus! {

/// An exact fraction `numerator / denominator` with a positive
/// denominator.
#[derive(Clone, Copy, Debug, PartialEq, Eq, Structural)]
pub struct Fraction {
    pub numerator: i128,
    pub denominator: u64,
}

/// The standard score of a segment.
#[derive(Clone, Copy, Debug, PartialEq, Eq, Structural)]
pub enum ZScore {
    /// Exactly `numerator / sqrt(radicand)`, with a positive radicand. A
    /// score of zero is held as `0 / sqrt(1)`.
    Exact { numerator: i128, radicand: u128 },
    /// `(density - mean) / deviation` of a cluster among all clusters that
    /// have a density, where these densities are not all equal. A density
    /// `num_elements / span_length` is a fraction, and so the mean and the
    /// deviation of densities are not computed here: whoever needs the
    /// number takes it from the exact sizes and span lengths.
    Density,
}

/// The sum of a sequence of observations.
pub open spec fn sum(s: Seq<i32>) -> int
    decreases s.len(),
{
    if s.len() == 0 {
        0
    } else {
        sum(s.drop_last()) + s.last()
    }
}

/// What an `Anomaly` stands for. A cluster lists its observations; a gap
/// lists none and is told apart by that alone.
pub struct AnomalyView {
    pub elements: Seq<i32>,
    pub start: i32,
    pub end: i32,
    pub z_score: Option<ZScore>,
}

impl AnomalyView {
    /// A gap holds no observations.
    pub open spec fn is_gap(self) -> bool {
        self.elements.len() == 0
    }

    /// The number of observations held; zero for a gap.
    pub open spec fn num_elements(self) -> nat {
        self.elements.len()
    }

    /// The distance from the first to the last observation.
    pub open spec fn span_length(self) -> int {
        self.end - self.start
    }

    /// The numerator of the centroid: for a gap the sum of its two bounds,
    /// for a cluster the sum of its observations.
    pub open spec fn centroid_numerator(self) -> int {
        if self.is_gap() {
            self.start + self.end
        } else {
            sum(self.elements)
        }
    }

    /// The denominator of the centroid, which makes it the midpoint of a
    /// gap and the arithmetic mean of a cluster.
    pub open spec fn centroid_denominator(self) -> int {
        if self.is_gap() {
            2
        } else {
            self.elements.len() as int
        }
    }

    /// A cluster runs in ascending order from `start` to `end`; a gap lies
    /// between two distinct observations.
    pub open spec fn wf(self) -> bool {
        if self.is_gap() {
            self.start < self.end
        } else {
            &&& ascending(self.elements)
            &&& self.start == self.elements.first()
            &&& self.end == self.elements.last()
        }
    }

    /// The same segment with its standard score replaced.
    pub open spec fn with_z_score(self, z_score: Option<ZScore>) -> AnomalyView {
        AnomalyView { z_score, ..self }
    }
}

/// One detected segment, with its span, size, centroid and standard score.
#[derive(Clone, Debug, PartialEq, Eq)]
pub struct Anomaly {
    elements: Vec<i32>,
    start: i32,
    end: i32,
    span_length: i64,
    num_elements: usize,
    centroid: Fraction,
    z_score: Option<ZScore>,
}

impl View for Anomaly {
    type V = AnomalyView;

    closed spec fn view(&self) -> AnomalyView {
        AnomalyView {
            elements: self.elements@,
            start: self.start,
            end: self.end,
            z_score: self.z_score,
        }
    }
}

/// What a list of records stands for, record by record.
pub open spec fn views(v: Seq<Anomaly>) -> Seq<AnomalyView> {
    Seq::new(v.len(), |i: int| v[i]@)
}

/// One more record stands for one more segment at the end.
pub proof fn lemma_views_push(v: Seq<Anomaly>, a: Anomaly)
    ensures
        views(v.push(a)) == views(v).push(a@),
{
    assert(views(v.push(a)) =~= views(v).push(a@));
}

/// Every record of the list is well formed.
pub open spec fn all_wf(v: Seq<Anomaly>) -> bool {
    forall|i: int| 0 <= i < v.len() ==> (#[trigger] v[i]).wf()
}

/// The sum of any `n` observations lies within `n` times the range of one.
pub proof fn lemma_sum_bounds(s: Seq<i32>)
    ensures
        s.len() * (i32::MIN as int) <= sum(s) <= s.len() * (i32::MAX as int),
    decreases s.len(),
{
    if s.len() > 0 {
        lemma_sum_bounds(s.drop_last());
    }
}

/// The mean of an ascending run lies between its ends.
pub proof fn lemma_sum_between_ends(s: Seq<i32>)
    requires
        s.len() > 0,
        ascending(s),
    ensures
        s.len() * s.first() <= sum(s) <= s.len() * s.last(),
    decreases s.len(),
{
    if s.len() > 1 {
        let t = s.drop_last();
        lemma_sum_between_ends(t);
        assert(t.first() == s.first());
        assert(t.last() <= s.last());
        assert(t.len() * t.last() <= t.len() * s.last()) by (nonlinear_arith)
            requires
                t.last() <= s.last(),
                t.len() >= 0,
        ;
        assert(s.len() * s.first() == t.len() * s.first() + s.first()) by (nonlinear_arith)
            requires
                s.len() == t.len() + 1,
        ;
        assert(s.len() * s.last() == t.len() * s.last() + s.last()) by (nonlinear_arith)
            requires
                s.len() == t.len() + 1,
        ;
    } else {
        assert(s.drop_last().len() == 0);
        assert(sum(s.drop_last()) == 0);
    }
}

impl Anomaly {
    /// The cached fields agree with the segment that the record stands for,
    /// and that segment is well formed.
    pub closed spec fn wf(&self) -> bool {
        &&& self@.wf()
        &&& self.span_length == self@.span_length()
        &&& self.num_elements == self@.num_elements()
        &&& self.centroid.numerator == self@.centroid_numerator()
        &&& self.centroid.denominator == self@.centroid_denominator()
    }

    /// A well-formed record stands for a well-formed segment.
    pub proof fn lemma_wf_view(&self)
        requires
            self.wf(),
        ensures
            self@.wf(),
    {
    }

    /// The cluster made of the given observations, not yet scored.
    pub fn new(cluster: &[i32]) -> (r: Anomaly)
        requires
            cluster@.len() > 0,
            ascending(cluster@),
        ensures
            r.wf(),
            r@ == (AnomalyView {
                elements: cluster@,
                start: cluster@.first(),
                end: cluster@.last(),
                z_score: None,
            }),
    {
        let num_elements: usize = cluster.len();
        let start: i32 = cluster[0];
        let end: i32 = cluster[num_elements - 1];
        let span_length: i64 = end as i64 - start as i64;
        let mut total: i128 = 0;
        let mut j: usize = 0;
        while j < num_elements
            invariant
                num_elements == cluster@.len(),
                0 <= j <= num_elements,
                total == sum(cluster@.take(j as int)),
            decreases num_elements - j,
        {
            proof {
                let next = cluster@.take(j as int + 1);
                assert(next.drop_last() =~= cluster@.take(j as int));
                lemma_sum_bounds(cluster@.take(j as int));
                assert(j * (i32::MIN as int) >= usize::MAX * (i32::MIN as int))
                    by (nonlinear_arith)
                    requires
                        0 <= j <= usize::MAX,
                ;
                assert(j * (i32::MAX as int) <= usize::MAX * (i32::MAX as int))
                    by (nonlinear_arith)
                    requires
                        0 <= j <= usize::MAX,
                ;
            }
            total = total + cluster[j] as i128;
            j = j + 1;
        }
        proof {
            assert(cluster@.take(num_elements as int) =~= cluster@);
        }
        Anomaly {
            elements: slice_to_vec(cluster),
            start,
            end,
            span_length,
            num_elements,
            centroid: Fraction { numerator: total, denominator: num_elements as u64 },
            z_score: None,
        }
    }

    /// The gap between two neighbouring observations, not yet scored.
    pub fn gap(start: i32, end: i32) -> (r: Anomaly)
        requires
            start < end,
        ensures
            r.wf(),
            r@ == (AnomalyView { elements: Seq::empty(), start, end, z_score: None }),
    {
        Anomaly {
            elements: Vec::new(),
            start,
            end,
            span_length: end as i64 - start as i64,
            num_elements: 0,
            centroid: Fraction { numerator: start as i128 + end as i128, denominator: 2 },
            z_score: None,
        }
    }

    /// The observations of a cluster, in ascending order; empty for a gap.
    pub fn elements(&self) -> (r: &Vec<i32>)
        ensures
            r@ == self@.elements,
    {
        &self.elements
    }

    /// The first observation of a cluster, or the left bound of a gap.
    pub fn start(&self) -> (r: i32)
        ensures
            r == self@.start,
    {
        self.start
    }

    /// The last observation of a cluster, or the right bound of a gap.
    pub fn end(&self) -> (r: i32)
        ensures
            r == self@.end,
    {
        self.end
    }

    /// The distance from `start` to `end`.
    pub fn span_length(&self) -> (r: i64)
        requires
            self.wf(),
        ensures
            r == self@.span_length(),
            0 <= r <= u32::MAX,
            self@.is_gap() ==> r > 0,
    {
        proof {
            if !self@.is_gap() {
                assert(self@.elements.first() <= self@.elements.last());
            }
        }
        self.span_length
    }

    /// The number of observations held; zero exactly for a gap.
    pub fn num_elements(&self) -> (r: usize)
        requires
            self.wf(),
        ensures
            r == self@.num_elements(),
    {
        self.num_elements
    }

    /// Whether the record is a gap rather than a cluster.
    pub fn is_gap(&self) -> (r: bool)
        requires
            self.wf(),
        ensures
            r == self@.is_gap(),
    {
        self.num_elements == 0
    }

    /// The representative position: the midpoint of a gap, the arithmetic
    /// mean of a cluster, as an exact fraction.
    pub fn centroid(&self) -> (r: Fraction)
        requires
            self.wf(),
        ensures
            r.numerator == self@.centroid_numerator(),
            r.denominator == self@.centroid_denominator(),
            r.denominator > 0,
    {
        self.centroid
    }

    /// The standard score, once the record has been scored.
    pub fn z_score(&self) -> (r: Option<ZScore>)
        ensures
            r == self@.z_score,
    {
        self.z_score
    }

    /// Records the standard score and leaves everything else as it was.
    pub(crate) fn set_z_score(&mut self, z_score: Option<ZScore>)
        requires
            old(self).wf(),
        ensures
            final(self).wf(),
            final(self)@ == old(self)@.with_z_score(z_score),
    {
        self.z_score = z_score;
    }
}

} // verus!
