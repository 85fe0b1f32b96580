use pipeline_core::{
    dhash_9x8, projection_profile_x, projection_profile_y, sobel_magnitude,
};

#[test]
fn projection_profiles_have_expected_lengths() {
    let data = vec![10u8; 16];
    let rows = projection_profile_y(&data, 4, 4);
    let cols = projection_profile_x(&data, 4, 4);
    assert_eq!(rows.len(), 4);
    assert_eq!(cols.len(), 4);
    assert_eq!(rows[0], 40);
    assert_eq!(cols[0], 40);
}

#[test]
fn sobel_magnitude_is_deterministic() {
    let mut data = vec![0u8; 25];
    data[12] = 255;
    let out_a = sobel_magnitude(&data, 5, 5);
    let out_b = sobel_magnitude(&data, 5, 5);
    assert_eq!(out_a, out_b);
    assert_eq!(out_a.len(), 25);
}

#[test]
fn dhash_outputs_nonzero_for_gradient() {
    let mut data = vec![0u8; 9 * 8];
    for y in 0..8 {
        for x in 0..9 {
            data[y * 9 + x] = (x * 16) as u8;
        }
    }
    let hash = dhash_9x8(&data);
    assert_ne!(hash, 0);
}
