use pipeline_core::{averaging_window, dominant_bucket, is_edge};

#[test]
fn an_empty_histogram_is_level() {
    assert_eq!(dominant_bucket(&[0u64; 181]), 90);
}

#[test]
fn the_heaviest_bucket_dominates() {
    let mut weights = [0u64; 181];
    weights[17] = 5;
    weights[120] = 9;
    weights[180] = 3;
    assert_eq!(dominant_bucket(&weights), 120);
    weights[180] = 10;
    assert_eq!(dominant_bucket(&weights), 180);
    weights[0] = 11;
    assert_eq!(dominant_bucket(&weights), 0);
}

#[test]
fn the_first_of_equal_buckets_dominates() {
    let mut weights = [0u64; 181];
    weights[100] = 7;
    weights[40] = 7;
    weights[150] = 7;
    assert_eq!(dominant_bucket(&weights), 40);
    assert_eq!(dominant_bucket(&[1u64; 181]), 0);
}

#[test]
fn weights_compare_like_the_bits_of_positive_floats() {
    let mut histogram = [0f64; 181];
    histogram[30] = 12.5;
    histogram[31] = 1.0e9;
    histogram[32] = 999_999_999.5;
    let mut keys = [0u64; 181];
    for (key, weight) in keys.iter_mut().zip(histogram.iter()) {
        *key = weight.to_bits();
    }
    assert_eq!(dominant_bucket(&keys), 31);
}

#[test]
fn the_window_reaches_three_buckets_each_way() {
    assert_eq!(averaging_window(90), (87, 93));
    assert_eq!(averaging_window(3), (0, 6));
    assert_eq!(averaging_window(2), (0, 5));
    assert_eq!(averaging_window(0), (0, 3));
    assert_eq!(averaging_window(177), (174, 180));
    assert_eq!(averaging_window(178), (175, 180));
    assert_eq!(averaging_window(180), (177, 180));
}

#[test]
fn the_noise_floor_is_a_magnitude_of_ten() {
    assert!(is_edge(6, 8));
    assert!(is_edge(-6, -8));
    assert!(is_edge(10, 0));
    assert!(is_edge(0, -10));
    assert!(!is_edge(7, 7));
    assert!(!is_edge(9, 4));
    assert!(!is_edge(0, 0));
    assert!(is_edge(1020, 1020));
    assert!(is_edge(i32::MIN, i32::MIN));
}
