use pipeline_core::{
    catalogue, content_box, detect_layout_elements_js, ContentBox, LayoutElementResult, Ratio,
};

fn whole(values: [u64; 4]) -> Vec<Ratio> {
    values.iter().map(|&num| Ratio { num, den: 1 }).collect()
}

fn hundredths(values: [u64; 4]) -> Vec<Ratio> {
    values.iter().map(|&num| Ratio { num, den: 100 }).collect()
}

fn region(id: &str, kind: &str, bbox: Vec<Ratio>, confidence: u64) -> LayoutElementResult {
    LayoutElementResult {
        id: id.to_string(),
        element_type: kind.to_string(),
        bbox,
        confidence: Ratio { num: confidence, den: 100 },
    }
}

#[test]
fn detect_layout_elements_returns_content_boxes() {
    let width = 10;
    let height = 10;
    let mut data = vec![255u8; width * height];
    for y in 2..8 {
        for x in 3..7 {
            data[y * width + x] = 0;
        }
    }
    let elements = detect_layout_elements_js(&data, width as u32, height as u32);
    assert!(!elements.is_empty());
    assert!(elements.iter().any(|el| el.id == "page-bounds"));
}

#[test]
fn a_dark_block_is_the_content_box() {
    let mut data = vec![255u8; 100];
    for y in 2..8 {
        for x in 3..7 {
            data[y * 10 + x] = 0;
        }
    }
    assert_eq!(content_box(&data, 10, 10), ContentBox { x0: 3, y0: 2, x1: 6, y1: 7 });
    let expected = vec![
        region("page-bounds", "page_bounds", whole([0, 0, 9, 9]), 60),
        region("text-block", "text_block", whole([3, 2, 6, 7]), 55),
        region("title", "title", hundredths([336, 210, 564, 270]), 55),
        region("running-head", "running_head", hundredths([330, 200, 570, 240]), 25),
        region("folio", "folio", hundredths([426, 650, 474, 690]), 22),
        region("ornament", "ornament", hundredths([426, 290, 474, 320]), 20),
        region("drop-cap", "drop_cap", hundredths([306, 290, 330, 360]), 18),
        region("footnote", "footnote", hundredths([315, 630, 585, 690]), 20),
        region("marginalia", "marginalia", hundredths([300, 325, 324, 575]), 18),
    ];
    assert_eq!(detect_layout_elements_js(&data, 10, 10), expected);
}

#[test]
fn the_catalogue_always_starts_with_the_page() {
    for (width, height) in [(1u32, 1u32), (2, 7), (7, 2), (12, 9)] {
        let n = (width * height) as usize;
        for data in [vec![255u8; n], vec![0u8; n], (0..n).map(|i| (i * 29 % 256) as u8).collect()] {
            let elements = detect_layout_elements_js(&data, width, height);
            assert_eq!(elements.len(), 9);
            assert_eq!(elements[0].id, "page-bounds");
            assert_eq!(elements[0].element_type, "page_bounds");
            assert_eq!(elements[0].bbox, whole([0, 0, width as u64 - 1, height as u64 - 1]));
            assert_eq!(elements[0].confidence, Ratio { num: 60, den: 100 });
            assert_eq!(elements.iter().filter(|el| el.id == "page-bounds").count(), 1);
        }
    }
}

#[test]
fn a_page_without_dark_pixels_is_all_content() {
    let white = vec![255u8; 30];
    assert_eq!(content_box(&white, 6, 5), ContentBox { x0: 0, y0: 0, x1: 5, y1: 4 });
    let pale = vec![245u8; 30];
    assert_eq!(content_box(&pale, 6, 5), ContentBox { x0: 0, y0: 0, x1: 5, y1: 4 });
    let elements = detect_layout_elements_js(&white, 6, 5);
    assert_eq!(elements[1].bbox, whole([0, 0, 5, 4]));
}

#[test]
fn a_black_page_is_all_content() {
    let black = vec![0u8; 30];
    assert_eq!(content_box(&black, 6, 5), ContentBox { x0: 0, y0: 0, x1: 5, y1: 4 });
    let nearly = vec![9u8; 30];
    assert_eq!(content_box(&nearly, 6, 5), ContentBox { x0: 0, y0: 0, x1: 5, y1: 4 });
    let ten = vec![10u8; 30];
    let mut marked = ten.clone();
    marked[13] = 9;
    assert_eq!(content_box(&marked, 6, 5), ContentBox { x0: 1, y0: 2, x1: 1, y1: 2 });
}

#[test]
fn a_single_dark_pixel_is_a_box_of_one_pixel() {
    let mut data = vec![250u8; 30];
    data[2 * 6 + 4] = 3;
    assert_eq!(content_box(&data, 6, 5), ContentBox { x0: 4, y0: 2, x1: 4, y1: 2 });
    let elements = detect_layout_elements_js(&data, 6, 5);
    assert_eq!(elements[1].bbox, whole([4, 2, 4, 2]));
    assert_eq!(elements[2].bbox, hundredths([412, 202, 488, 214]));
    assert_eq!(elements[8].bbox, hundredths([400, 225, 408, 275]));
}

#[test]
fn the_threshold_lies_half_a_deviation_below_the_mean() {
    let data: Vec<u8> = vec![
        0, 50, 100, 150, 200, 250, 255, 255, 255, 255, 255, 255, 255, 255, 255, 255,
    ];
    assert_eq!(content_box(&data, 4, 4), ContentBox { x0: 0, y0: 0, x1: 3, y1: 0 });
}

#[test]
fn regions_are_kept_inside_the_page() {
    let b = ContentBox { x0: 8, y0: 8, x1: 9, y1: 9 };
    let elements = catalogue(b, 10, 10);
    assert_eq!(elements[1].bbox, whole([8, 8, 9, 9]));
    assert_eq!(elements[2].bbox, hundredths([812, 802, 888, 814]));
    let wide = ContentBox { x0: 5, y0: 5, x1: 205, y1: 105 };
    let clipped = catalogue(wide, 100, 100);
    assert_eq!(clipped[2].bbox, hundredths([2900, 700, 9900, 1900]));
    assert_eq!(clipped[4].bbox, hundredths([8900, 9500, 9900, 9900]));
}

#[test]
fn an_invalid_raster_has_no_regions() {
    let data = vec![0u8; 12];
    assert!(detect_layout_elements_js(&data, 0, 3).is_empty());
    assert!(detect_layout_elements_js(&data, 3, 0).is_empty());
    assert!(detect_layout_elements_js(&data, 4, 4).is_empty());
    assert!(detect_layout_elements_js(&[], 1, 1).is_empty());
}
