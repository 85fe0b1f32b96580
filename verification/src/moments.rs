//! Exact first and second moments of a sample of natural numbers, and the
//! comparisons of a value against `mean + k * deviation` that peak and band
//! detection rest on.
//!
//! With `n` samples of sum `s` and sum of squares `q`, the mean is `s / n`
//! and the population standard deviation is `sqrt(n * q - s * s) / n`. A
//! comparison `v > s / n + (num / den) * sqrt(n * q - s * s) / n` has a
//! non-negative right-hand side once the mean is subtracted, so it holds
//! exactly when `n * v - s > 0` and
//! `den^2 * (n * v - s)^2 > num^2 * (n * q - s * s)`: a statement about
//! integers, decided here in 256-bit arithmetic.

use vstd::prelude::*;
use crate::summation::{sum_to, lemma_sum_bounds};
use crate::wide::Wide;

verus! {

/// The largest sum, and the largest product of a sample with the count, for
/// which the comparisons are computed: two to the power 112.
pub const SUM_LIMIT: u128 = 0x1_0000_0000_0000_0000_0000_0000_0000;

/// The largest sample of a profile: two to the power 40, above 255 times any
/// 32-bit dimension.
pub const SAMPLE_LIMIT: u64 = 0x100_0000_0000;

/// The samples of a profile, as a function of the index.
pub open spec fn samples(values: Seq<u64>) -> spec_fn(int) -> int {
    |i: int| values[i] as int
}

/// The intensities of a buffer, as a function of the offset.
pub open spec fn intensities(data: Seq<u8>) -> spec_fn(int) -> int {
    |i: int| data[i] as int
}

/// The squares of the values of `f`.
pub open spec fn squares(f: spec_fn(int) -> int) -> spec_fn(int) -> int {
    |i: int| f(i) * f(i)
}

/// The number of samples, their sum and the sum of their squares.
#[derive(Clone, Copy, Debug, PartialEq, Eq)]
pub struct Moments {
    pub count: u64,
    pub sum: u128,
    pub sum_sq: u128,
}

/// `n * (v - mean)` for a sample of `n` values with sum `s`: positive
/// exactly when `v` lies above the mean.
pub open spec fn excess(v: int, n: int, s: int) -> int {
    n * v - s
}

/// `n * n` times the population variance of a sample of `n` values with sum
/// `s` and sum of squares `q`.
pub open spec fn spread(n: int, s: int, q: int) -> int {
    n * q - s * s
}

/// `v` differs from the mean by more than `num / den` standard deviations,
/// in either direction, for a factor `num / den` that is not negative.
pub open spec fn apart(v: int, n: int, s: int, q: int, num: int, den: int) -> bool {
    den * den * (excess(v, n, s) * excess(v, n, s)) > num * num * spread(n, s, q)
}

/// `v > mean + (num / den) * deviation`.
pub open spec fn above(v: int, n: int, s: int, q: int, num: int, den: int) -> bool {
    excess(v, n, s) > 0 && apart(v, n, s, q, num, den)
}

/// `v < mean - (num / den) * deviation`.
pub open spec fn below(v: int, n: int, s: int, q: int, num: int, den: int) -> bool {
    excess(v, n, s) < 0 && apart(v, n, s, q, num, den)
}

impl Moments {
    /// These are the moments of the samples `f(0), ..., f(n - 1)`.
    pub open spec fn describes(&self, f: spec_fn(int) -> int, n: nat) -> bool {
        &&& self.count == n
        &&& self.sum == sum_to(f, n)
        &&& self.sum_sq == sum_to(squares(f), n)
    }

    /// `v > mean + (num / den) * deviation`, for these moments.
    pub open spec fn above(&self, v: int, num: int, den: int) -> bool {
        above(v, self.count as int, self.sum as int, self.sum_sq as int, num, den)
    }

    /// `v < mean - (num / den) * deviation`, for these moments.
    pub open spec fn below(&self, v: int, num: int, den: int) -> bool {
        below(v, self.count as int, self.sum as int, self.sum_sq as int, num, den)
    }

    /// The moments of no samples.
    pub fn empty() -> (m: Moments)
        ensures
            m.count == 0,
            m.sum == 0,
            m.sum_sq == 0,
    {
        Moments { count: 0, sum: 0, sum_sq: 0 }
    }

    /// The moments of a profile whose samples do not exceed `SAMPLE_LIMIT`.
    pub fn of_profile(values: &Vec<u64>) -> (m: Moments)
        requires
            values.len() <= u32::MAX,
            forall|i: int| 0 <= i < values.len() ==> values[i] <= SAMPLE_LIMIT,
        ensures
            m.describes(samples(values@), values@.len()),
            m.sum <= values.len() * SAMPLE_LIMIT,
            spread(m.count as int, m.sum as int, m.sum_sq as int) >= 0,
    {
        let ghost f = samples(values@);
        let mut sum: u128 = 0;
        let mut sum_sq: u128 = 0;
        let mut i: usize = 0;
        while i < values.len()
            invariant
                i <= values.len() <= u32::MAX,
                f == samples(values@),
                forall|k: int| 0 <= k < values.len() ==> values[k] <= SAMPLE_LIMIT,
                sum == sum_to(f, i as nat),
                sum_sq == sum_to(squares(f), i as nat),
                sum <= i * SAMPLE_LIMIT,
                sum_sq <= i * 0x1_0000_0000_0000_0000_0000int,
            decreases values.len() - i,
        {
            let v: u128 = values[i] as u128;
            assert(v * v <= 0x1_0000_0000_0000_0000_0000int) by (nonlinear_arith)
                requires
                    0 <= v <= 0x100_0000_0000,
            ;
            sum = sum + v;
            sum_sq = sum_sq + v * v;
            i = i + 1;
        }
        proof {
            lemma_spread_is_not_negative(f, values@.len());
        }
        Moments { count: values.len() as u64, sum, sum_sq }
    }

    /// The moments of the first `n` intensities of a buffer.
    pub fn of_bytes(data: &[u8], n: usize) -> (m: Moments)
        requires
            n <= data.len(),
        ensures
            m.describes(intensities(data@), n as nat),
            m.sum <= n * 255,
            spread(m.count as int, m.sum as int, m.sum_sq as int) >= 0,
    {
        let ghost f = intensities(data@);
        let mut sum: u128 = 0;
        let mut sum_sq: u128 = 0;
        let mut i: usize = 0;
        while i < n
            invariant
                i <= n <= data.len(),
                f == intensities(data@),
                sum == sum_to(f, i as nat),
                sum_sq == sum_to(squares(f), i as nat),
                sum <= i * 255,
                sum_sq <= i * 65025,
            decreases n - i,
        {
            let v: u128 = data[i] as u128;
            assert(v * v <= 65025) by (nonlinear_arith)
                requires
                    0 <= v <= 255,
            ;
            sum = sum + v;
            sum_sq = sum_sq + v * v;
            i = i + 1;
        }
        proof {
            lemma_spread_is_not_negative(f, n as nat);
        }
        Moments { count: n as u64, sum, sum_sq }
    }

    /// `count^2` times the population variance of these moments, where it is
    /// not negative, as it is for the moments of any sample.
    pub fn spread(&self) -> (r: Option<Wide>)
        ensures
            r.is_some() == (spread(self.count as int, self.sum as int, self.sum_sq as int) >= 0),
            r matches Some(d) ==> d.value() == spread(
                self.count as int,
                self.sum as int,
                self.sum_sq as int,
            ),
    {
        let squares: Wide = Wide::product(self.count as u128, self.sum_sq);
        let square: Wide = Wide::product(self.sum, self.sum);
        if square.exceeds(&squares) {
            None
        } else {
            Some(squares.minus(&square))
        }
    }

    /// Decides `apart` for a value whose distance from the mean, times the
    /// count, is `gap`.
    fn gap_exceeds(&self, gap: u128, num: u8, den: u8) -> (r: bool)
        requires
            gap <= SUM_LIMIT,
            self.sum <= SUM_LIMIT,
        ensures
            r == (den * den * (gap * gap) > num * num * spread(
                self.count as int,
                self.sum as int,
                self.sum_sq as int,
            )),
    {
        proof {
            lemma_scaled_bound(den as int, gap as int);
            lemma_scaled_bound(num as int, self.sum as int);
            lemma_scaled_bound(num as int, num as int);
            lemma_scaled_bound(num as int * num as int, self.count as int);
        }
        let scaled_gap: u128 = (den as u128) * gap;
        let scaled_sum: u128 = (num as u128) * self.sum;
        let weight: u128 = (num as u128) * (num as u128) * (self.count as u128);
        let gap_sq: Wide = Wide::product(scaled_gap, scaled_gap);
        let sum_sq: Wide = Wide::product(scaled_sum, scaled_sum);
        let rhs: Wide = Wide::product(weight, self.sum_sq);
        proof {
            lemma_square_bound(scaled_gap as int);
            lemma_square_bound(scaled_sum as int);
            lemma_rearranged(
                gap as int,
                den as int,
                num as int,
                self.count as int,
                self.sum as int,
                self.sum_sq as int,
            );
        }
        let lhs: Wide = gap_sq.plus(&sum_sq);
        lhs.exceeds(&rhs)
    }

    /// Decides whether `v` lies more than `num / den` standard deviations
    /// above the mean.
    pub fn is_above(&self, v: u64, num: u8, den: u8) -> (r: bool)
        requires
            self.sum <= SUM_LIMIT,
            self.count * v <= SUM_LIMIT,
        ensures
            r == self.above(v as int, num as int, den as int),
    {
        let scaled: u128 = (self.count as u128) * (v as u128);
        if scaled <= self.sum {
            return false;
        }
        self.gap_exceeds(scaled - self.sum, num, den)
    }

    /// Decides whether `v` lies more than `num / den` standard deviations
    /// below the mean.
    pub fn is_below(&self, v: u64, num: u8, den: u8) -> (r: bool)
        requires
            self.sum <= SUM_LIMIT,
            self.count * v <= SUM_LIMIT,
        ensures
            r == self.below(v as int, num as int, den as int),
    {
        let scaled: u128 = (self.count as u128) * (v as u128);
        if scaled >= self.sum {
            return false;
        }
        let gap: u128 = self.sum - scaled;
        let ghost e = excess(v as int, self.count as int, self.sum as int);
        assert(gap * gap == e * e) by (nonlinear_arith)
            requires
                gap == -e,
        ;
        self.gap_exceeds(gap, num, den)
    }
}

/// The sum of the squared distances of `n` samples from `v` is
/// `q - 2 * v * s + n * v * v`, which therefore is not negative.
proof fn lemma_squared_distances(f: spec_fn(int) -> int, n: nat, v: int)
    ensures
        sum_to(squares(f), n) - 2 * v * sum_to(f, n) + n * v * v >= 0,
    decreases n,
{
    if n > 0 {
        lemma_squared_distances(f, (n - 1) as nat, v);
        let s = sum_to(f, (n - 1) as nat);
        let q = sum_to(squares(f), (n - 1) as nat);
        let x = f(n - 1);
        assert(squares(f)(n - 1) == x * x);
        assert((q + x * x) - 2 * v * (s + x) + n * v * v == (q - 2 * v * s + (n - 1) * v * v) + (x
            - v) * (x - v)) by (nonlinear_arith);
        assert((x - v) * (x - v) >= 0) by (nonlinear_arith);
    } else {
        assert(n * v * v == 0) by (nonlinear_arith)
            requires
                n == 0,
        ;
    }
}

/// The variance of a sample is not negative: `n` times the sum of the
/// squares of `n` samples is at least the square of their sum.
pub proof fn lemma_spread_is_not_negative(f: spec_fn(int) -> int, n: nat)
    ensures
        spread(n as int, sum_to(f, n), sum_to(squares(f), n)) >= 0,
    decreases n,
{
    if n > 0 {
        lemma_spread_is_not_negative(f, (n - 1) as nat);
        lemma_squared_distances(f, (n - 1) as nat, f(n - 1));
        let s = sum_to(f, (n - 1) as nat);
        let q = sum_to(squares(f), (n - 1) as nat);
        let x = f(n - 1);
        assert(squares(f)(n - 1) == x * x);
        assert(n * (q + x * x) - (s + x) * (s + x) == ((n - 1) * q - s * s) + (q - 2 * x * s + (n
            - 1) * x * x)) by (nonlinear_arith);
    } else {
        assert(spread(0, 0, 0) == 0);
    }
}

/// A product is bounded by the product of the bounds of its factors.
proof fn lemma_scaled_bound(k: int, x: int)
    requires
        0 <= k <= 65025,
        0 <= x <= SUM_LIMIT,
    ensures
        0 <= k * x <= 65025 * SUM_LIMIT,
        k <= 255 ==> k * x <= 255 * SUM_LIMIT,
        k <= 255 && x <= 255 ==> k * x <= 65025,
{
    assert(0 <= k * x <= 65025 * SUM_LIMIT) by (nonlinear_arith)
        requires
            0 <= k <= 65025,
            0 <= x <= SUM_LIMIT,
    ;
    if k <= 255 {
        assert(k * x <= 255 * SUM_LIMIT) by (nonlinear_arith)
            requires
                0 <= k <= 255,
                0 <= x <= SUM_LIMIT,
        ;
        if x <= 255 {
            assert(k * x <= 65025) by (nonlinear_arith)
                requires
                    0 <= k <= 255,
                    0 <= x <= 255,
            ;
        }
    }
}

/// The square of an integer of at most 120 bits leaves room for a second
/// such square below two to the power 256.
proof fn lemma_square_bound(x: int)
    requires
        0 <= x <= 255 * SUM_LIMIT,
    ensures
        x * x <= (255 * SUM_LIMIT) * (255 * SUM_LIMIT),
        2 * ((255 * SUM_LIMIT) * (255 * SUM_LIMIT)) < crate::wide::limb() * crate::wide::limb(),
{
    assert(x * x <= (255 * SUM_LIMIT) * (255 * SUM_LIMIT)) by (nonlinear_arith)
        requires
            0 <= x <= 255 * SUM_LIMIT,
    ;
    assert(2 * ((255 * 0x1_0000_0000_0000_0000_0000_0000_0000int) * (255
        * 0x1_0000_0000_0000_0000_0000_0000_0000int))
        < 0x1_0000_0000_0000_0000_0000_0000_0000_0000int
        * 0x1_0000_0000_0000_0000_0000_0000_0000_0000int) by (nonlinear_arith);
}

/// Moving the square of the sum across the comparison removes the
/// subtraction.
proof fn lemma_rearranged(gap: int, den: int, num: int, n: int, s: int, q: int)
    ensures
        (den * gap) * (den * gap) == den * den * (gap * gap),
        (den * den * (gap * gap) > num * num * (n * q - s * s)) == ((den * gap) * (den * gap) + (num
            * s) * (num * s) > (num * num * n) * q),
{
    assert((den * gap) * (den * gap) == den * den * (gap * gap)) by (nonlinear_arith);
    assert((num * s) * (num * s) + num * num * (n * q - s * s) == (num * num * n) * q)
        by (nonlinear_arith);
}

} // verus!
