use pipeline_core::{
    ink_columns, ink_rows, projection_profile_x, projection_profile_x_js, projection_profile_y,
    projection_profile_y_js, raster_len,
};

#[test]
fn uniform_raster_projects_to_products() {
    let data = vec![7u8; 15];
    assert_eq!(projection_profile_y(&data, 3, 5), vec![21u32; 5]);
    assert_eq!(projection_profile_x(&data, 3, 5), vec![35u32; 3]);
}

#[test]
fn four_by_four_of_tens_projects_to_forties() {
    let data = vec![10u8; 16];
    assert_eq!(projection_profile_y_js(&data, 4, 4), vec![40u32, 40, 40, 40]);
    assert_eq!(projection_profile_x_js(&data, 4, 4), vec![40u32, 40, 40, 40]);
}

#[test]
fn projections_sum_rows_and_columns() {
    let data: Vec<u8> = vec![1, 2, 3, 4, 5, 6];
    assert_eq!(projection_profile_y(&data, 3, 2), vec![6u32, 15]);
    assert_eq!(projection_profile_x(&data, 3, 2), vec![5u32, 7, 9]);
    assert_eq!(projection_profile_y(&data, 2, 3), vec![3u32, 7, 11]);
    assert_eq!(projection_profile_x(&data, 2, 3), vec![9u32, 12]);
}

#[test]
fn projections_ignore_bytes_beyond_the_raster() {
    let data: Vec<u8> = vec![1, 2, 3, 4, 200, 200];
    assert_eq!(projection_profile_y_js(&data, 2, 2), vec![3u32, 7]);
    assert_eq!(projection_profile_x_js(&data, 2, 2), vec![4u32, 6]);
}

#[test]
fn projections_of_an_invalid_raster_are_empty() {
    let data = vec![9u8; 8];
    assert!(projection_profile_y_js(&data, 0, 4).is_empty());
    assert!(projection_profile_y_js(&data, 4, 0).is_empty());
    assert!(projection_profile_y_js(&data, 3, 3).is_empty());
    assert!(projection_profile_x_js(&data, 0, 4).is_empty());
    assert!(projection_profile_x_js(&data, 4, 0).is_empty());
    assert!(projection_profile_x_js(&data, 3, 3).is_empty());
    assert!(projection_profile_y_js(&[], 1, 1).is_empty());
}

#[test]
fn projections_of_an_empty_grid_have_no_sums() {
    let data = vec![9u8; 4];
    assert_eq!(projection_profile_y(&data, 0, 3), vec![0u32; 3]);
    assert!(projection_profile_y(&data, 3, 0).is_empty());
    assert!(projection_profile_x(&data, 0, 3).is_empty());
    assert_eq!(projection_profile_x(&data, 3, 0), vec![0u32; 3]);
}

#[test]
fn a_row_sum_beyond_32_bits_wraps() {
    let width: usize = 16_843_010;
    let data = vec![255u8; width];
    assert_eq!(projection_profile_y(&data, width, 1), vec![254u32]);
    assert_eq!(projection_profile_x(&data, 1, width), vec![254u32]);
    let fits: usize = 16_843_009;
    assert_eq!(projection_profile_y(&data, fits, 1), vec![u32::MAX]);
}

#[test]
fn ink_is_the_complement_of_intensity() {
    let data: Vec<u8> = vec![255, 0, 100, 250, 5, 255];
    assert_eq!(ink_rows(&data, 3, 2), vec![410u64, 255]);
    assert_eq!(ink_columns(&data, 3, 2), vec![5u64, 505, 155]);
}

#[test]
fn raster_len_accepts_exactly_the_valid_rasters() {
    assert_eq!(raster_len(12, 3, 4), Some(12));
    assert_eq!(raster_len(13, 3, 4), Some(12));
    assert_eq!(raster_len(11, 3, 4), None);
    assert_eq!(raster_len(12, 0, 4), None);
    assert_eq!(raster_len(12, 3, 0), None);
    assert_eq!(raster_len(0, 0, 0), None);
    assert_eq!(raster_len(usize::MAX, u32::MAX, 1), Some(u32::MAX as usize));
    assert_eq!(raster_len(1000, u32::MAX, u32::MAX), None);
}
