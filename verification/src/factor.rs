//! The sensitivity factor, held as an exact positive fraction.

use vstd::prelude::*;

verus! {

/// A positive rational number `numerator / denominator` that scales both
/// thresholds of the segmentation.
#[derive(Clone, Copy, Debug)]
pub struct Factor {
    numerator: u32,
    denominator: u32,
}

impl Factor {
    /// Both parts are strictly positive.
    pub open spec fn wf(&self) -> bool {
        self.num() > 0 && self.den() > 0
    }

    /// The numerator, as a mathematical integer.
    pub closed spec fn num(&self) -> int {
        self.numerator as int
    }

    /// The denominator, as a mathematical integer.
    pub closed spec fn den(&self) -> int {
        self.denominator as int
    }

    /// Builds the factor `numerator / denominator`; `None` exactly when one
    /// of the two is zero, since a factor must be positive.
    pub fn new(numerator: u32, denominator: u32) -> (r: Option<Factor>)
        ensures
            r.is_some() <==> (numerator > 0 && denominator > 0),
            r.is_some() ==> r.unwrap().wf() && r.unwrap().num() == numerator
                && r.unwrap().den() == denominator,
    {
        if numerator > 0 && denominator > 0 {
            Some(Factor { numerator, denominator })
        } else {
            None
        }
    }

    /// The numerator.
    pub fn numerator(&self) -> (r: u32)
        ensures
            r == self.num(),
    {
        self.numerator
    }

    /// The denominator.
    pub fn denominator(&self) -> (r: u32)
        ensures
            r == self.den(),
    {
        self.denominator
    }
}

} // verus!
