//! The analysis of one dataset: sort, segment, score.

use vstd::prelude::*;
use vstd::relations::{sorted_by, total_ordering};
use vstd::seq_lib::lemma_sorted_unique;
use crate::anomaly::{all_wf, views, Anomaly, AnomalyView};
use crate::factor::Factor;
use crate::model::{ascending, segments, spans};
use crate::scorer::{score, scored, MAX_VALUES};
use crate::segmenter::segment;
use crate::structure::lemma_spans_from_structure;

verus! {

/// The scale of the gap threshold unless another one is chosen: a pair is
/// a gap when it is more than `factor * 2` mean distances wide.
pub const DEFAULT_GAP_SCALE: u32 = 2;

/// Why a search was not carried out.
#[derive(Clone, Copy, Debug, PartialEq, Eq, Structural)]
pub enum SearchError {
    /// The dataset holds more than `MAX_VALUES` observations.
    TooManyValues,
}

/// The order by which observations are sorted.
pub open spec fn ascending_order() -> spec_fn(i32, i32) -> bool {
    |a: i32, b: i32| a <= b
}

/// The observations of `s` in ascending order.
pub open spec fn sorted_values(s: Seq<i32>) -> Seq<i32> {
    s.sort_by(ascending_order())
}

/// The scored segments of a dataset, whatever order it comes in.
pub open spec fn analysis(
    s: Seq<i32>,
    factor: Factor,
    min_cluster_size: int,
    gap_scale: int,
) -> Seq<AnomalyView> {
    scored(segments(sorted_values(s), factor, min_cluster_size, gap_scale))
}

/// Sorting keeps the observations, each as often as before, and puts them
/// in ascending order.
pub proof fn lemma_sorted_values(s: Seq<i32>)
    ensures
        ascending(sorted_values(s)),
        sorted_values(s).to_multiset() == s.to_multiset(),
        sorted_values(s).len() == s.len(),
{
    let leq = ascending_order();
    assert(total_ordering(leq));
    s.lemma_sort_by_ensures(leq);
    let t = sorted_values(s);
    assert forall|i: int, j: int| 0 <= i <= j < t.len() implies t[i] <= t[j] by {
        if i < j {
            assert(leq(t[i], t[j]));
        }
    }
    s.to_multiset_ensures();
    t.to_multiset_ensures();
}

/// An ascending sequence with the observations of `s` is `sorted_values(s)`.
pub proof fn lemma_sorted_values_unique(s: Seq<i32>, t: Seq<i32>)
    requires
        ascending(t),
        t.to_multiset() == s.to_multiset(),
    ensures
        t == sorted_values(s),
{
    let leq = ascending_order();
    assert(total_ordering(leq));
    s.lemma_sort_by_ensures(leq);
    assert(sorted_by(t, leq));
    lemma_sorted_unique(t, sorted_values(s), leq);
}

/// Sorts the observations by calling `sort_unstable` of the standard
/// library on the slice. Believed of it, as its documentation says: the
/// observations are in ascending order afterwards, and they are those that
/// were there before, each as often as before.
#[verifier::external_body]
fn sort_ascending(values: &mut Vec<i32>)
    ensures
        ascending(final(values)@),
        final(values)@.to_multiset() == old(values)@.to_multiset(),
{
    values.sort_unstable();
}

/// What a `Lyagushka` stands for.
pub struct LyagushkaView {
    pub dataset: Seq<i32>,
    pub anomalies: Seq<AnomalyView>,
    pub gap_scale: int,
}

/// The state after a search that was carried out: the dataset sorted, and
/// its scored segments in place of what was found before.
pub open spec fn searched(
    before: LyagushkaView,
    factor: Factor,
    min_cluster_size: int,
) -> LyagushkaView {
    LyagushkaView {
        dataset: sorted_values(before.dataset),
        anomalies: analysis(before.dataset, factor, min_cluster_size, before.gap_scale),
        gap_scale: before.gap_scale,
    }
}

/// A dataset together with the segments last found in it.
pub struct Lyagushka {
    dataset: Vec<i32>,
    anomalies: Vec<Anomaly>,
    gap_scale: u32,
}

impl View for Lyagushka {
    type V = LyagushkaView;

    closed spec fn view(&self) -> LyagushkaView {
        LyagushkaView {
            dataset: self.dataset@,
            anomalies: views(self.anomalies@),
            gap_scale: self.gap_scale as int,
        }
    }
}

impl Lyagushka {
    /// Every segment held is well formed.
    pub closed spec fn wf(&self) -> bool {
        all_wf(self.anomalies@)
    }

    /// Takes a dataset in, in any order, with nothing found yet and the
    /// default gap scale.
    pub fn new(dataset: Vec<i32>) -> (r: Lyagushka)
        ensures
            r.wf(),
            r@ == (LyagushkaView {
                dataset: dataset@,
                anomalies: Seq::empty(),
                gap_scale: DEFAULT_GAP_SCALE as int,
            }),
    {
        let r = Lyagushka { dataset, anomalies: Vec::new(), gap_scale: DEFAULT_GAP_SCALE };
        assert(r@.anomalies =~= Seq::<AnomalyView>::empty());
        r
    }

    /// Chooses the scale of the gap threshold.
    pub fn with_gap_scale(self, gap_scale: u32) -> (r: Lyagushka)
        requires
            self.wf(),
        ensures
            r.wf(),
            r@ == (LyagushkaView { gap_scale: gap_scale as int, ..self@ }),
    {
        Lyagushka { dataset: self.dataset, anomalies: self.anomalies, gap_scale }
    }

    /// The observations, as they are held now.
    pub fn dataset(&self) -> (r: &Vec<i32>)
        ensures
            r@ == self@.dataset,
    {
        &self.dataset
    }

    /// The segments last found.
    pub fn anomalies(&self) -> (r: &Vec<Anomaly>)
        ensures
            views(r@) == self@.anomalies,
            self.wf() ==> all_wf(r@),
    {
        &self.anomalies
    }

    /// The scale of the gap threshold.
    pub fn gap_scale(&self) -> (r: u32)
        ensures
            r == self@.gap_scale,
    {
        self.gap_scale
    }

    /// Segments the dataset, which must be in ascending order, and holds
    /// the unscored segments in place of what was found before.
    pub fn scan_anomalies(&mut self, factor: Factor, min_cluster_size: usize)
        requires
            factor.wf(),
            ascending(old(self)@.dataset),
        ensures
            final(self).wf(),
            final(self)@ == (LyagushkaView {
                anomalies: segments(
                    old(self)@.dataset,
                    factor,
                    min_cluster_size as int,
                    old(self)@.gap_scale,
                ),
                ..old(self)@
            }),
    {
        self.anomalies = segment(&self.dataset, factor, min_cluster_size, self.gap_scale);
    }

    /// Sorts the dataset, segments it and scores the segments.
    ///
    /// The dataset is left sorted and the scored segments replace what was
    /// found before. A dataset of more than `MAX_VALUES` observations is
    /// refused and nothing is changed.
    pub fn search(&mut self, factor: Factor, min_cluster_size: usize) -> (r: Result<
        (),
        SearchError,
    >)
        requires
            factor.wf(),
            old(self).wf(),
        ensures
            final(self).wf(),
            r.is_err() <==> old(self)@.dataset.len() > MAX_VALUES,
            r.is_err() ==> r == Err::<(), SearchError>(SearchError::TooManyValues) && final(self)@
                == old(self)@,
            r.is_ok() ==> final(self)@ == searched(old(self)@, factor, min_cluster_size as int),
    {
        if self.dataset.len() > MAX_VALUES {
            return Err(SearchError::TooManyValues);
        }
        let ghost given = self.dataset@;
        sort_ascending(&mut self.dataset);
        proof {
            given.to_multiset_ensures();
            self.dataset@.to_multiset_ensures();
            lemma_sorted_values_unique(given, self.dataset@);
        }
        self.scan_anomalies(factor, min_cluster_size);
        proof {
            let s = self.dataset@;
            let k = self.gap_scale as int;
            let min = min_cluster_size as int;
            if s.len() > 0 {
                lemma_spans_from_structure(s, factor, min, k, 0, 0);
            }
            assert(views(self.anomalies@).len() == spans(s, factor, min, k).len());
        }
        score(&mut self.anomalies);
        Ok(())
    }
}

} // verus!
