//! The decisions of skew estimation that are made on integers.
//!
//! The estimate itself is a weighted mean of angles and is formed by the
//! caller, who accumulates, for each edge pixel, the magnitude of the
//! gradient in the bucket of its direction: 181 buckets, one per degree from
//! -90 to 90. What is decided here is which pixels count as edges, which
//! bucket dominates, and over which buckets the mean is taken. The weights
//! are only compared, so they may be given in any unit that keeps their
//! order.

use vstd::prelude::*;

verus! {

/// The number of buckets of the histogram of directions.
pub const BUCKETS: usize = 181;

/// The bucket of direction zero, which dominates an empty histogram.
pub const LEVEL: usize = 90;

/// The number of buckets on each side of the dominant one over which the
/// mean is taken.
pub const REACH: usize = 3;

/// A gradient is an edge where its magnitude is at least ten.
pub open spec fn is_edge_gradient(gx: int, gy: int) -> bool {
    gx * gx + gy * gy >= 100
}

/// Bucket `b` dominates the histogram: it is the first of the buckets with
/// the greatest weight, or the bucket of direction zero where every weight
/// is zero.
pub open spec fn is_dominant(weights: Seq<u64>, b: int) -> bool {
    if forall|i: int| 0 <= i < weights.len() ==> #[trigger] weights[i] == 0 {
        b == LEVEL
    } else {
        &&& 0 <= b < weights.len()
        &&& forall|i: int| 0 <= i < weights.len() ==> #[trigger] weights[i] <= weights[b]
        &&& forall|i: int| 0 <= i < b ==> #[trigger] weights[i] < weights[b]
    }
}

/// The first bucket of the window around bucket `b`.
pub open spec fn window_start(b: int) -> int {
    if b >= REACH {
        b - REACH
    } else {
        0
    }
}

/// The last bucket of the window around bucket `b`.
pub open spec fn window_end(b: int) -> int {
    if b + REACH <= BUCKETS - 1 {
        b + REACH
    } else {
        BUCKETS - 1
    }
}

/// Whether a gradient is an edge: whether its magnitude reaches the noise
/// floor of ten.
pub fn is_edge(gx: i32, gy: i32) -> (r: bool)
    ensures
        r == is_edge_gradient(gx as int, gy as int),
{
    assert(0 <= gx * gx <= 0x4000_0000_0000_0000 && 0 <= gy * gy <= 0x4000_0000_0000_0000)
        by (nonlinear_arith)
        requires
            -0x8000_0000 <= gx <= 0x7fff_ffff,
            -0x8000_0000 <= gy <= 0x7fff_ffff,
    ;
    let x: i128 = gx as i128;
    let y: i128 = gy as i128;
    x * x + y * y >= 100
}

/// The bucket that dominates a histogram.
pub fn dominant_bucket(weights: &[u64; 181]) -> (b: usize)
    ensures
        is_dominant(weights@, b as int),
        b < BUCKETS,
{
    let mut best: usize = LEVEL;
    let mut most: u64 = 0;
    let mut i: usize = 0;
    while i < BUCKETS
        invariant
            i <= BUCKETS,
            weights@.len() == BUCKETS,
            best < BUCKETS,
            forall|k: int| 0 <= k < i ==> #[trigger] weights@[k] <= most,
            most == 0 ==> best == LEVEL,
            most > 0 ==> best < i && weights@[best as int] == most,
            most > 0 ==> forall|k: int| 0 <= k < best ==> #[trigger] weights@[k] < most,
        decreases BUCKETS - i,
    {
        if weights[i] > most {
            most = weights[i];
            best = i;
        }
        i = i + 1;
    }
    proof {
        if most > 0 {
            assert(weights@[best as int] != 0);
        }
    }
    best
}

/// The first and the last bucket of the window around a bucket.
pub fn averaging_window(bucket: usize) -> (w: (usize, usize))
    ensures
        w.0 == window_start(bucket as int),
        w.1 == window_end(bucket as int),
{
    let start: usize = if bucket >= REACH { bucket - REACH } else { 0 };
    let end: usize = if bucket <= BUCKETS - 1 - REACH { bucket + REACH } else { BUCKETS - 1 };
    (start, end)
}

} // verus!
