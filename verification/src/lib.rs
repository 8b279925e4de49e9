//! One-dimensional structure detection: sorted integer observations are
//! summarised into dense clusters and notable gaps, and each segment is
//! given its standard score or the rule by which it is scored.
//!
//! Everything is computed in integers. The sensitivity factor is a
//! fraction, the thresholds are compared by cross-multiplication and a
//! centroid is a fraction. The standard score of a gap is an integer over
//! the square root of an integer. Densities are fractions: whether they
//! vary is decided exactly, and a cluster whose score is neither unset nor
//! zero is marked as scored by its density, to be worked out in floating
//! point from the exact sizes and span lengths.

pub mod anomaly;
pub mod factor;
pub mod laws;
pub mod lyagushka;
pub mod model;
pub mod runs;
pub mod scorer;
pub mod segmenter;
pub mod spacing;
pub mod structure;
pub mod variance;

pub use crate::anomaly::{Anomaly, Fraction, ZScore};
pub use crate::factor::Factor;
pub use crate::lyagushka::{Lyagushka, SearchError, DEFAULT_GAP_SCALE};
pub use crate::scorer::{density_difference, score, MAX_SEGMENTS, MAX_VALUES};
pub use crate::segmenter::segment;
