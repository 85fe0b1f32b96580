//! Sorting and the median of a sample of unsigned integers.
//!
//! The median of a sample of even length is the mean of its two central
//! elements, which need not be an integer: the functions here return twice
//! the median.

use vstd::prelude::*;
use vstd::relations::{sorted_by, total_ordering};
use vstd::seq_lib::{lemma_multiset_commutative, lemma_sorted_unique};

verus! {

/// The order of the unsigned integers.
pub open spec fn leq() -> spec_fn(u64, u64) -> bool {
    |a: u64, b: u64| a <= b
}

/// The elements of `s` in ascending order.
pub open spec fn ascending(s: Seq<u64>) -> Seq<u64> {
    s.sort_by(leq())
}

/// Twice the median of `s`: the sum of the two central elements of the
/// sorted sample where its length is even, twice its central element where
/// it is odd, and zero for an empty sample.
pub open spec fn twice_median(s: Seq<u64>) -> int {
    let sorted = ascending(s);
    let mid = s.len() as int / 2;
    if s.len() == 0 {
        0
    } else if s.len() % 2 == 0 {
        sorted[mid - 1] + sorted[mid]
    } else {
        2 * sorted[mid]
    }
}

/// The order of the unsigned integers is total.
pub proof fn lemma_leq_total()
    ensures
        total_ordering(leq()),
{
}

/// Sorting rearranges: the sorted sample has the length and the elements of
/// the sample, in ascending order.
pub proof fn lemma_ascending(s: Seq<u64>)
    ensures
        ascending(s).len() == s.len(),
        ascending(s).to_multiset() == s.to_multiset(),
        forall|i: int, j: int|
            0 <= i <= j < s.len() ==> #[trigger] ascending(s)[i] <= #[trigger] ascending(s)[j],
        forall|i: int| 0 <= i < s.len() ==> s.contains(#[trigger] ascending(s)[i]),
{
    broadcast use vstd::seq_lib::group_to_multiset_ensures;

    lemma_leq_total();
    s.lemma_sort_by_ensures(leq());
    let t = ascending(s);
    vstd::seq_lib::to_multiset_len(s);
    vstd::seq_lib::to_multiset_len(t);
    assert(t.len() == s.len());
    assert forall|i: int, j: int| 0 <= i <= j < s.len() implies #[trigger] t[i] <= #[trigger] t[j] by {
        if i < j {
            assert(leq()(t[i], t[j]));
        }
    }
    assert forall|i: int| 0 <= i < s.len() implies s.contains(#[trigger] t[i]) by {
        assert(t.contains(t[i]));
    }
}

/// Twice the median of a sample lies between twice its least and twice its
/// greatest element.
pub proof fn lemma_twice_median_bounds(s: Seq<u64>, lo: int, hi: int)
    requires
        s.len() > 0,
        forall|i: int| 0 <= i < s.len() ==> lo <= #[trigger] s[i] <= hi,
    ensures
        2 * lo <= twice_median(s) <= 2 * hi,
{
    lemma_ascending(s);
    let t = ascending(s);
    let mid = s.len() as int / 2;
    assert(s.contains(t[mid]));
    if s.len() % 2 == 0 {
        assert(s.contains(t[mid - 1]));
    }
}

/// Merges two ascending sequences into one.
fn merge(left: &Vec<u64>, right: &Vec<u64>) -> (out: Vec<u64>)
    requires
        sorted_by(left@, leq()),
        sorted_by(right@, leq()),
        left.len() + right.len() <= usize::MAX,
    ensures
        sorted_by(out@, leq()),
        out@.to_multiset() == left@.to_multiset().add(right@.to_multiset()),
        out.len() == left.len() + right.len(),
{
    broadcast use vstd::seq_lib::group_to_multiset_ensures;
    broadcast use vstd::multiset::group_multiset_axioms;

    let mut out: Vec<u64> = Vec::new();
    let mut i: usize = 0;
    let mut j: usize = 0;
    proof {
        assert(left@.take(0) =~= Seq::<u64>::empty());
        assert(right@.take(0) =~= Seq::<u64>::empty());
        assert(out@.to_multiset() =~= left@.take(0).to_multiset().add(
            right@.take(0).to_multiset(),
        ));
    }
    while i < left.len() || j < right.len()
        invariant
            i <= left.len(),
            j <= right.len(),
            left.len() + right.len() <= usize::MAX,
            sorted_by(left@, leq()),
            sorted_by(right@, leq()),
            out.len() == i + j,
            sorted_by(out@, leq()),
            out@.to_multiset() == left@.take(i as int).to_multiset().add(
                right@.take(j as int).to_multiset(),
            ),
            forall|k: int| 0 <= k < out.len() && i < left.len() ==> #[trigger] out[k] <= left[i as int],
            forall|k: int|
                0 <= k < out.len() && j < right.len() ==> #[trigger] out[k] <= right[j as int],
        decreases left.len() - i + right.len() - j,
    {
        let ghost before = out@;
        if j >= right.len() || (i < left.len() && left[i] <= right[j]) {
            let v: u64 = left[i];
            out.push(v);
            proof {
                assert(out@ =~= before.push(v));
                left@.lemma_take_succ_push(i as int);
                vstd::seq_lib::to_multiset_build(before, v);
                vstd::seq_lib::to_multiset_build(left@.take(i as int), v);
                assert(out@.to_multiset() =~= left@.take(i + 1).to_multiset().add(
                    right@.take(j as int).to_multiset(),
                ));
                assert forall|a: int, b: int| 0 <= a < b < out.len() implies #[trigger] leq()(
                    out[a],
                    out[b],
                ) by {
                    if b < before.len() {
                        assert(leq()(before[a], before[b]));
                    }
                }
                if i + 1 < left.len() {
                    assert(leq()(left[i as int], left[i + 1]));
                }
            }
            i = i + 1;
        } else {
            let v: u64 = right[j];
            out.push(v);
            proof {
                assert(out@ =~= before.push(v));
                right@.lemma_take_succ_push(j as int);
                vstd::seq_lib::to_multiset_build(before, v);
                vstd::seq_lib::to_multiset_build(right@.take(j as int), v);
                assert(out@.to_multiset() =~= left@.take(i as int).to_multiset().add(
                    right@.take(j + 1).to_multiset(),
                ));
                assert forall|a: int, b: int| 0 <= a < b < out.len() implies #[trigger] leq()(
                    out[a],
                    out[b],
                ) by {
                    if b < before.len() {
                        assert(leq()(before[a], before[b]));
                    }
                }
                if j + 1 < right.len() {
                    assert(leq()(right[j as int], right[j + 1]));
                }
            }
            j = j + 1;
        }
    }
    proof {
        assert(left@.take(i as int) =~= left@);
        assert(right@.take(j as int) =~= right@);
    }
    out
}

/// Sorts the elements of `values` from index `from` up to `to`.
fn sort_range(values: &Vec<u64>, from: usize, to: usize) -> (out: Vec<u64>)
    requires
        from <= to <= values.len(),
    ensures
        sorted_by(out@, leq()),
        out@.to_multiset() == values@.subrange(from as int, to as int).to_multiset(),
        out.len() == to - from,
    decreases to - from,
{
    broadcast use vstd::seq_lib::group_to_multiset_ensures;

    if to - from <= 1 {
        let mut out: Vec<u64> = Vec::new();
        if to > from {
            out.push(values[from]);
        }
        assert(out@ =~= values@.subrange(from as int, to as int));
        return out;
    }
    let mid: usize = from + (to - from) / 2;
    let left: Vec<u64> = sort_range(values, from, mid);
    let right: Vec<u64> = sort_range(values, mid, to);
    let out: Vec<u64> = merge(&left, &right);
    proof {
        let a = values@.subrange(from as int, mid as int);
        let b = values@.subrange(mid as int, to as int);
        assert(a + b =~= values@.subrange(from as int, to as int));
        lemma_multiset_commutative(a, b);
    }
    out
}

/// A copy of `values` in ascending order.
pub fn sorted_copy(values: &Vec<u64>) -> (out: Vec<u64>)
    ensures
        out@ == ascending(values@),
{
    let out: Vec<u64> = sort_range(values, 0, values.len());
    proof {
        assert(values@.subrange(0, values.len() as int) =~= values@);
        lemma_leq_total();
        values@.lemma_sort_by_ensures(leq());
        lemma_sorted_unique(out@, ascending(values@), leq());
    }
    out
}

/// Twice the median of `values`.
pub fn twice_median_of(values: &Vec<u64>) -> (m: u128)
    ensures
        m == twice_median(values@),
{
    let n: usize = values.len();
    if n == 0 {
        return 0;
    }
    let sorted: Vec<u64> = sorted_copy(values);
    proof {
        lemma_ascending(values@);
    }
    let mid: usize = n / 2;
    if n % 2 == 0 {
        sorted[mid - 1] as u128 + sorted[mid] as u128
    } else {
        2 * (sorted[mid] as u128)
    }
}

} // verus!
