//! Exact fractions of unsigned integers.

use vstd::prelude::*;

verus! {

/// The fraction `num / den`, kept as it was formed: it is not reduced.
#[derive(Clone, Copy, Debug, PartialEq, Eq)]
pub struct Ratio {
    pub num: u64,
    pub den: u64,
}

impl Ratio {
    /// The denominator is not zero.
    pub open spec fn wf(&self) -> bool {
        self.den > 0
    }

    /// The fraction has this numerator and this denominator.
    pub open spec fn is_fraction(&self, num: int, den: int) -> bool {
        self.num == num && self.den == den
    }

    /// The fraction `num / den`.
    pub fn new(num: u64, den: u64) -> (r: Ratio)
        requires
            den > 0,
        ensures
            r.is_fraction(num as int, den as int),
            r.wf(),
    {
        Ratio { num, den }
    }

    /// The whole number `n`, as `n / 1`.
    pub fn whole(n: u64) -> (r: Ratio)
        ensures
            r.is_fraction(n as int, 1),
            r.wf(),
    {
        Ratio { num: n, den: 1 }
    }

    /// Zero, as `0 / 1`.
    pub fn zero() -> (r: Ratio)
        ensures
            r.is_fraction(0, 1),
            r.wf(),
    {
        Ratio { num: 0, den: 1 }
    }
}

} // verus!
