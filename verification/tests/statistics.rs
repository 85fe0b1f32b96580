use pipeline_core::{sorted_copy, twice_median_of, Moments, Ratio, Wide};

#[test]
fn the_median_of_an_odd_sample_is_its_central_element() {
    assert_eq!(twice_median_of(&vec![5]), 10);
    assert_eq!(twice_median_of(&vec![3, 1, 2]), 4);
    assert_eq!(twice_median_of(&vec![9, 1, 8, 2, 7]), 14);
}

#[test]
fn the_median_of_an_even_sample_averages_two_elements() {
    assert_eq!(twice_median_of(&vec![1, 4]), 5);
    assert_eq!(twice_median_of(&vec![4, 1]), 5);
    assert_eq!(twice_median_of(&vec![10, 1, 3, 2]), 5);
    assert_eq!(twice_median_of(&vec![7, 7, 7, 7]), 14);
}

#[test]
fn the_median_of_nothing_is_zero() {
    assert_eq!(twice_median_of(&vec![]), 0);
}

#[test]
fn the_median_of_the_largest_numbers_does_not_overflow() {
    assert_eq!(twice_median_of(&vec![u64::MAX, u64::MAX]), 2 * (u64::MAX as u128));
    assert_eq!(twice_median_of(&vec![u64::MAX]), 2 * (u64::MAX as u128));
}

#[test]
fn sorting_keeps_every_element() {
    assert_eq!(sorted_copy(&vec![]), Vec::<u64>::new());
    assert_eq!(sorted_copy(&vec![3]), vec![3]);
    assert_eq!(sorted_copy(&vec![3, 1, 2, 3, 0, 1]), vec![0, 1, 1, 2, 3, 3]);
    let values: Vec<u64> = (0..1000u64).map(|i| (i * 7919) % 1009).collect();
    let sorted = sorted_copy(&values);
    let mut expected = values.clone();
    expected.sort();
    assert_eq!(sorted, expected);
    assert_eq!(values[1], 7919 % 1009);
}

#[test]
fn moments_count_sum_and_square() {
    assert_eq!(Moments::of_bytes(&[1, 2, 3, 255], 4), Moments { count: 4, sum: 261, sum_sq: 65_039 });
    assert_eq!(Moments::of_bytes(&[1, 2, 3, 255], 2), Moments { count: 2, sum: 3, sum_sq: 5 });
    assert_eq!(Moments::of_bytes(&[], 0), Moments { count: 0, sum: 0, sum_sq: 0 });
    assert_eq!(Moments::of_profile(&vec![10, 20, 30]), Moments { count: 3, sum: 60, sum_sq: 1400 });
    assert_eq!(Moments::empty(), Moments { count: 0, sum: 0, sum_sq: 0 });
}

#[test]
fn a_value_at_the_threshold_is_not_above_it() {
    let m = Moments { count: 5, sum: 5, sum_sq: 25 };
    assert!(!m.is_above(2, 1, 2));
    assert!(m.is_above(3, 1, 2));
    assert!(!m.is_above(2, 3, 5));
    assert!(m.is_above(3, 3, 5));
    assert!(!m.is_above(1, 0, 1));
    assert!(m.is_above(2, 0, 1));
    let tie = Moments { count: 34, sum: 25, sum_sq: 25 };
    assert!(!tie.is_above(1, 3, 5));
    assert!(tie.is_above(1, 59, 100));
    assert!(!tie.is_above(1, 61, 100));
}

#[test]
fn a_value_at_the_threshold_is_not_below_it() {
    let m = Moments { count: 5, sum: 20, sum_sq: 100 };
    assert!(!m.is_below(3, 1, 2));
    assert!(m.is_below(2, 1, 2));
    assert!(!m.is_below(4, 0, 1));
    assert!(m.is_below(3, 0, 1));
    assert!(!m.is_below(5, 1, 2));
}

#[test]
fn equal_samples_have_no_spread() {
    let m = Moments { count: 4, sum: 40, sum_sq: 400 };
    assert!(!m.is_above(10, 3, 5));
    assert!(m.is_above(11, 3, 5));
    assert!(!m.is_below(10, 1, 2));
    assert!(m.is_below(9, 1, 2));
}

#[test]
fn comparisons_are_exact_beyond_128_bits() {
    let m = Moments { count: 1 << 40, sum: 1 << 79, sum_sq: 1 << 119 };
    assert!(!m.is_above(3 << 38, 1, 2));
    assert!(m.is_above((3 << 38) + 1, 1, 2));
    assert!(!m.is_below(1 << 38, 1, 2));
    assert!(m.is_below((1 << 38) - 1, 1, 2));
    assert!(!m.is_above(1 << 39, 0, 1));
    assert!(m.is_above((1 << 39) + 1, 0, 1));
}

#[test]
fn a_wide_product_keeps_every_bit() {
    let p = Wide::product(u128::MAX, u128::MAX);
    assert_eq!((p.hi, p.lo), (u128::MAX - 1, 1));
    let q = Wide::product(1 << 64, 1 << 64);
    assert_eq!((q.hi, q.lo), (1, 0));
    let r = Wide::product(0x1234_5678_9abc_def0_1111_2222_3333_4444, 0);
    assert_eq!((r.hi, r.lo), (0, 0));
    let s = Wide::product(3, 5);
    assert_eq!((s.hi, s.lo), (0, 15));
    let t = Wide::product(u128::MAX, 2);
    assert_eq!((t.hi, t.lo), (1, u128::MAX - 1));
    let u = Wide::product((1 << 64) + 3, (1 << 64) + 5);
    assert_eq!((u.hi, u.lo), (1, (8 << 64) + 15));
}

#[test]
fn wide_sums_carry_and_compare() {
    let a = Wide { hi: 1, lo: u128::MAX };
    let b = Wide { hi: 2, lo: 1 };
    let sum = a.plus(&b);
    assert_eq!((sum.hi, sum.lo), (4, 0));
    assert!(b.exceeds(&a));
    assert!(!a.exceeds(&b));
    assert!(!a.exceeds(&a));
    assert!(Wide { hi: 1, lo: 1 }.exceeds(&Wide { hi: 1, lo: 0 }));
    assert!(Wide { hi: 1, lo: 0 }.exceeds(&Wide { hi: 0, lo: u128::MAX }));
}

#[test]
fn wide_differences_borrow() {
    let a = Wide { hi: 4, lo: 0 };
    let b = Wide { hi: 1, lo: u128::MAX };
    let d = a.minus(&b);
    assert_eq!((d.hi, d.lo), (2, 1));
    let e = a.minus(&a);
    assert_eq!((e.hi, e.lo), (0, 0));
    let f = Wide { hi: 7, lo: 9 }.minus(&Wide { hi: 2, lo: 3 });
    assert_eq!((f.hi, f.lo), (5, 6));
}

#[test]
fn the_spread_is_the_scaled_variance() {
    let m = Moments { count: 8, sum: 5610, sum_sq: 8_713_350 };
    let d = m.spread();
    assert_eq!(d.map(|w| (w.hi, w.lo)), Some((0, 38_234_700)));
    let flat = Moments { count: 4, sum: 40, sum_sq: 400 };
    assert_eq!(flat.spread().map(|w| (w.hi, w.lo)), Some((0, 0)));
    let none = Moments { count: 2, sum: 10, sum_sq: 49 };
    assert!(none.spread().is_none());
    let big = Moments { count: 1 << 40, sum: 1 << 79, sum_sq: 1 << 119 };
    assert_eq!(big.spread().map(|w| (w.hi, w.lo)), Some((1 << 30, 0)));
    assert_eq!(Moments::empty().spread().map(|w| (w.hi, w.lo)), Some((0, 0)));
}

#[test]
fn ratios_keep_their_terms() {
    assert_eq!(Ratio::new(6, 14), Ratio { num: 6, den: 14 });
    assert_ne!(Ratio::new(6, 14), Ratio { num: 3, den: 7 });
    assert_eq!(Ratio::whole(9), Ratio { num: 9, den: 1 });
    assert_eq!(Ratio::zero(), Ratio { num: 0, den: 1 });
}
