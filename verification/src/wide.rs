//! Unsigned 256-bit integers, wide enough to compare squared sums of a
//! whole raster without rounding.

use vstd::prelude::*;

verus! {

/// Two to the power 64: the base in which a product is assembled.
pub const HALF: u128 = 0x1_0000_0000_0000_0000;

/// Two to the power 128, the weight of the high limb.
pub open spec fn limb() -> int {
    0x1_0000_0000_0000_0000_0000_0000_0000_0000int
}

/// An unsigned integer below two to the power 256, held as two limbs.
#[derive(Clone, Copy, Debug)]
pub struct Wide {
    pub hi: u128,
    pub lo: u128,
}

impl Wide {
    /// The number that the two limbs stand for.
    pub open spec fn value(&self) -> int {
        self.hi * limb() + self.lo
    }

    /// The full product of two 128-bit integers.
    pub fn product(a: u128, b: u128) -> (r: Wide)
        ensures
            r.value() == a * b,
    {
        let a0: u128 = a % HALF;
        let a1: u128 = a / HALF;
        let b0: u128 = b % HALF;
        let b1: u128 = b / HALF;
        proof {
            lemma_half_product(a0, b0);
            lemma_half_product(a0, b1);
            lemma_half_product(a1, b0);
            lemma_half_product(a1, b1);
            lemma_split_product(a as int, b as int, a0 as int, a1 as int, b0 as int, b1 as int);
        }
        let low_low: u128 = a0 * b0;
        let low_high: u128 = a0 * b1;
        let high_low: u128 = a1 * b0;
        let high_high: u128 = a1 * b1;
        let first: u128 = low_low / HALF + low_high % HALF + high_low % HALF;
        let second: u128 = first / HALF + low_high / HALF + high_low / HALF + high_high % HALF;
        let third: u128 = second / HALF + high_high / HALF;
        let digit0: u128 = low_low % HALF;
        let digit1: u128 = first % HALF;
        let digit2: u128 = second % HALF;
        assert(a * b == third * HALF * HALF * HALF + digit2 * HALF * HALF + digit1 * HALF + digit0);
        assert(third < HALF);
        Wide { hi: third * HALF + digit2, lo: digit1 * HALF + digit0 }
    }

    /// The sum of two wide integers, where it is below two to the power 256.
    pub fn plus(&self, other: &Wide) -> (r: Wide)
        requires
            self.value() + other.value() < limb() * limb(),
        ensures
            r.value() == self.value() + other.value(),
    {
        let lo: u128 = self.lo.wrapping_add(other.lo);
        let carry: u128 = if lo < self.lo { 1 } else { 0 };
        assert(self.lo + other.lo == lo + carry * limb());
        assert(self.hi + other.hi + carry < limb()) by (nonlinear_arith)
            requires
                (self.hi + other.hi + carry) * limb() + lo < limb() * limb(),
                lo >= 0,
                limb() > 0,
        ;
        Wide { hi: self.hi + other.hi + carry, lo }
    }

    /// The difference of two wide integers, where it is not negative.
    pub fn minus(&self, other: &Wide) -> (r: Wide)
        requires
            self.value() >= other.value(),
        ensures
            r.value() == self.value() - other.value(),
    {
        let lo: u128 = self.lo.wrapping_sub(other.lo);
        let borrow: u128 = if self.lo < other.lo { 1 } else { 0 };
        assert(self.lo - other.lo == lo - borrow * limb());
        assert(self.hi >= other.hi + borrow) by (nonlinear_arith)
            requires
                self.hi * limb() + self.lo >= other.hi * limb() + other.lo,
                borrow == (if self.lo < other.lo { 1int } else { 0int }),
                limb() > 0,
                0 <= self.lo < limb(),
                0 <= other.lo < limb(),
        ;
        Wide { hi: self.hi - other.hi - borrow, lo }
    }

    /// Whether this integer is strictly greater than `other`.
    pub fn exceeds(&self, other: &Wide) -> (r: bool)
        ensures
            r == (self.value() > other.value()),
    {
        self.hi > other.hi || (self.hi == other.hi && self.lo > other.lo)
    }
}

/// The product of two integers below two to the power 64 is below two to
/// the power 128.
proof fn lemma_half_product(x: u128, y: u128)
    requires
        x < HALF,
        y < HALF,
    ensures
        x * y <= 0xffff_ffff_ffff_fffe_0000_0000_0000_0001,
{
    assert(x * y <= 0xffff_ffff_ffff_ffff * 0xffff_ffff_ffff_ffff) by (nonlinear_arith)
        requires
            0 <= x <= 0xffff_ffff_ffff_ffff,
            0 <= y <= 0xffff_ffff_ffff_ffff,
    ;
}

/// Schoolbook multiplication in base two to the power 64.
proof fn lemma_split_product(a: int, b: int, a0: int, a1: int, b0: int, b1: int)
    requires
        a == a1 * HALF + a0,
        b == b1 * HALF + b0,
    ensures
        a * b == (a1 * b1) * HALF * HALF + (a0 * b1) * HALF + (a1 * b0) * HALF + a0 * b0,
{
    assert(a * b == (a1 * b1) * HALF * HALF + (a0 * b1) * HALF + (a1 * b0) * HALF + a0 * b0)
        by (nonlinear_arith)
        requires
            a == a1 * HALF + a0,
            b == b1 * HALF + b0,
    ;
}

} // verus!
