//! Exact fractions.
use vstd::prelude::*;

verus! {

/// The fraction `numerator / denominator`. It is not kept in lowest terms: two ratios stand
/// for the same number when their cross products agree.
#[derive(Clone, Copy, Debug, PartialEq, Eq, Structural)]
pub struct Ratio {
    pub numerator: i128,
    pub denominator: i128,
}

impl Ratio {
    /// The denominator is positive, so the sign of the number is the numerator's.
    pub open spec fn wf(self) -> bool {
        self.denominator > 0
    }

    /// This ratio stands for the number `n / d`.
    pub open spec fn stands_for(self, n: int, d: int) -> bool {
        self.numerator * d == n * self.denominator
    }

    pub fn new(numerator: i128, denominator: i128) -> (r: Ratio)
        requires
            denominator > 0,
        ensures
            r.wf(),
            r.numerator == numerator,
            r.denominator == denominator,
    {
        Ratio { numerator, denominator }
    }
}

} // verus!
