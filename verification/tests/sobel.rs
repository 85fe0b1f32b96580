use pipeline_core::{
    gradient_at, magnitude_of, nearest_root, sobel_magnitude, sobel_magnitude_js,
};

#[test]
fn a_single_bright_pixel_is_ringed_by_edges() {
    let mut data = vec![0u8; 25];
    data[12] = 255;
    let first = sobel_magnitude_js(&data, 5, 5);
    let second = sobel_magnitude_js(&data, 5, 5);
    let expected: Vec<u16> = vec![
        0, 0, 0, 0, 0, 0, 361, 510, 361, 0, 0, 510, 0, 510, 0, 0, 361, 510, 361, 0, 0, 0, 0, 0, 0,
    ];
    assert_eq!(first, expected);
    assert_eq!(second, expected);
}

#[test]
fn a_horizontal_ramp_has_a_constant_gradient() {
    let data: Vec<u8> = vec![0, 10, 20, 30, 0, 10, 20, 30, 0, 10, 20, 30, 0, 10, 20, 30];
    let expected: Vec<u16> = vec![0, 0, 0, 0, 0, 80, 80, 0, 0, 80, 80, 0, 0, 0, 0, 0];
    assert_eq!(sobel_magnitude(&data, 4, 4), expected);
}

#[test]
fn a_slanted_ramp_rounds_to_the_nearest_integer() {
    let data: Vec<u8> = vec![
        0, 3, 6, 9, 12, 7, 10, 13, 16, 19, 14, 17, 20, 23, 26, 21, 24, 27, 30, 33,
    ];
    let expected: Vec<u16> = vec![
        0, 0, 0, 0, 0, 0, 61, 61, 61, 0, 0, 61, 61, 61, 0, 0, 0, 0, 0, 0,
    ];
    assert_eq!(sobel_magnitude(&data, 5, 4), expected);
}

#[test]
fn the_border_of_a_magnitude_map_is_zero() {
    let data: Vec<u8> = (0..42u32).map(|i| ((i * 37) % 251) as u8).collect();
    let map = sobel_magnitude_js(&data, 7, 6);
    assert_eq!(map.len(), 42);
    for y in 0..6 {
        for x in 0..7 {
            if x == 0 || y == 0 || x == 6 || y == 5 {
                assert_eq!(map[y * 7 + x], 0);
            }
        }
    }
}

#[test]
fn a_raster_too_small_for_the_kernel_maps_to_zeros() {
    let data = vec![200u8; 12];
    assert_eq!(sobel_magnitude(&data, 2, 6), vec![0u16; 12]);
    assert_eq!(sobel_magnitude(&data, 6, 2), vec![0u16; 12]);
    assert_eq!(sobel_magnitude(&data, 1, 1), vec![0u16; 1]);
    assert_eq!(sobel_magnitude_js(&data, 2, 6), vec![0u16; 12]);
    assert!(sobel_magnitude(&[], 2, 0).is_empty());
    assert_eq!(sobel_magnitude(&[], 2, 5), vec![0u16; 10]);
}

#[test]
fn an_invalid_raster_maps_to_a_blank_map_of_its_stated_size() {
    let data = vec![255u8; 10];
    assert_eq!(sobel_magnitude_js(&data, 4, 4), vec![0u16; 16]);
    assert!(sobel_magnitude_js(&data, 0, 4).is_empty());
    assert!(sobel_magnitude_js(&data, 4, 0).is_empty());
}

#[test]
fn gradient_follows_the_two_kernels() {
    let data: Vec<u8> = vec![1, 2, 4, 8, 16, 32, 64, 128, 255];
    let (gx, gy) = gradient_at(&data, 3, 3, 1, 1);
    assert_eq!(gx, (4 - 1) + 2 * (32 - 8) + (255 - 64));
    assert_eq!(gy, (1 - 64) + 2 * (2 - 128) + (4 - 255));
    let bright: Vec<u8> = vec![0, 0, 255, 0, 0, 255, 0, 0, 255];
    assert_eq!(gradient_at(&bright, 3, 3, 1, 1), (1020, 0));
    let low: Vec<u8> = vec![255, 255, 255, 0, 0, 0, 0, 0, 0];
    assert_eq!(gradient_at(&low, 3, 3, 1, 1), (0, 1020));
}

#[test]
fn nearest_root_rounds_half_way_between_squares() {
    assert_eq!(nearest_root(0), 0);
    assert_eq!(nearest_root(1), 1);
    assert_eq!(nearest_root(2), 1);
    assert_eq!(nearest_root(3), 2);
    assert_eq!(nearest_root(6), 2);
    assert_eq!(nearest_root(7), 3);
    assert_eq!(nearest_root(12), 3);
    assert_eq!(nearest_root(13), 4);
    assert_eq!(nearest_root(130_050), 361);
    assert_eq!(nearest_root(2_080_800), 1442);
    assert_eq!(nearest_root(u32::MAX), 65_536);
}

#[test]
fn magnitude_of_the_extreme_gradients() {
    assert_eq!(magnitude_of(0, 0), 0);
    assert_eq!(magnitude_of(3, 4), 5);
    assert_eq!(magnitude_of(-3, -4), 5);
    assert_eq!(magnitude_of(1020, 1020), 1442);
    assert_eq!(magnitude_of(-1020, 1020), 1442);
    assert_eq!(magnitude_of(1, 1), 1);
}
