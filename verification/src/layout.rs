//! The layout heuristic: the bounding box of the dark pixels of a page, and
//! a fixed catalogue of nine regions placed relative to that box.
//!
//! A pixel is dark where its intensity lies below
//! `mean - 0.5 * deviation` of all intensities, that threshold being kept
//! within `[10, 245]`. Coordinates are pixels, and fractions of a pixel in
//! hundredths for the regions placed inside the box.

use vstd::prelude::*;
use crate::moments::{below, intensities, squares, Moments};
use crate::raster::{lemma_offset_in_grid, pixel, raster_len, valid_raster};
use crate::ratio::Ratio;
use crate::summation::sum_to;

verus! {

/// An intensity `p` is dark among `n` intensities of sum `s` and sum of
/// squares `q`: it lies below the threshold `mean - 0.5 * deviation`, kept
/// within `[10, 245]`. Below 10 every intensity is dark, from 245 on none,
/// and in between the bounds on the threshold do not matter.
pub open spec fn dark_level(p: int, n: int, s: int, q: int) -> bool {
    p < 10 || (p < 245 && below(p, n, s, q, 1, 2))
}

/// The pixel in column `x` of row `y` is dark.
pub open spec fn is_dark(data: Seq<u8>, width: int, height: int, x: int, y: int) -> bool {
    let n = width * height;
    dark_level(
        pixel(data, width, x, y),
        n,
        sum_to(intensities(data), n as nat),
        sum_to(squares(intensities(data)), n as nat),
    )
}

/// The raster has a dark pixel.
pub open spec fn has_ink(data: Seq<u8>, width: int, height: int) -> bool {
    exists|x: int, y: int|
        0 <= x < width && 0 <= y < height && #[trigger] is_dark(data, width, height, x, y)
}

/// A box of pixels, by its first and last column and its first and last
/// row.
#[derive(Clone, Copy, Debug, PartialEq, Eq)]
pub struct ContentBox {
    pub x0: u32,
    pub y0: u32,
    pub x1: u32,
    pub y1: u32,
}

/// `b` is the content box of the raster: the smallest box that holds every
/// dark pixel, and the whole raster where no pixel is dark.
pub open spec fn is_content_box(data: Seq<u8>, width: int, height: int, b: ContentBox) -> bool {
    if has_ink(data, width, height) {
        &&& b.x0 <= b.x1 < width
        &&& b.y0 <= b.y1 < height
        &&& exists|y: int| 0 <= y < height && #[trigger] is_dark(data, width, height, b.x0 as int, y)
        &&& exists|y: int| 0 <= y < height && #[trigger] is_dark(data, width, height, b.x1 as int, y)
        &&& exists|x: int| 0 <= x < width && #[trigger] is_dark(data, width, height, x, b.y0 as int)
        &&& exists|x: int| 0 <= x < width && #[trigger] is_dark(data, width, height, x, b.y1 as int)
        &&& forall|x: int, y: int|
            0 <= x < width && 0 <= y < height && #[trigger] is_dark(data, width, height, x, y)
                ==> b.x0 <= x <= b.x1 && b.y0 <= y <= b.y1
    } else {
        b.x0 == 0 && b.y0 == 0 && b.x1 == width - 1 && b.y1 == height - 1
    }
}

/// The content box of a raster.
pub open spec fn content_box_of(data: Seq<u8>, width: int, height: int) -> ContentBox {
    choose|b: ContentBox| is_content_box(data, width, height, b)
}

/// A raster has one content box.
pub proof fn lemma_content_box_unique(
    data: Seq<u8>,
    width: int,
    height: int,
    a: ContentBox,
    b: ContentBox,
)
    requires
        is_content_box(data, width, height, a),
        is_content_box(data, width, height, b),
    ensures
        a == b,
{
    if has_ink(data, width, height) {
        let ya = choose|y: int| 0 <= y < height && #[trigger] is_dark(data, width, height, a.x0 as int, y);
        let yb = choose|y: int| 0 <= y < height && #[trigger] is_dark(data, width, height, b.x0 as int, y);
        assert(is_dark(data, width, height, a.x0 as int, ya));
        assert(is_dark(data, width, height, b.x0 as int, yb));
        let yc = choose|y: int| 0 <= y < height && #[trigger] is_dark(data, width, height, a.x1 as int, y);
        let yd = choose|y: int| 0 <= y < height && #[trigger] is_dark(data, width, height, b.x1 as int, y);
        assert(is_dark(data, width, height, a.x1 as int, yc));
        assert(is_dark(data, width, height, b.x1 as int, yd));
        let xa = choose|x: int| 0 <= x < width && #[trigger] is_dark(data, width, height, x, a.y0 as int);
        let xb = choose|x: int| 0 <= x < width && #[trigger] is_dark(data, width, height, x, b.y0 as int);
        assert(is_dark(data, width, height, xa, a.y0 as int));
        assert(is_dark(data, width, height, xb, b.y0 as int));
        let xc = choose|x: int| 0 <= x < width && #[trigger] is_dark(data, width, height, x, a.y1 as int);
        let xd = choose|x: int| 0 <= x < width && #[trigger] is_dark(data, width, height, x, b.y1 as int);
        assert(is_dark(data, width, height, xc, a.y1 as int));
        assert(is_dark(data, width, height, xd, b.y1 as int));
    }
}

/// For each intensity, whether it is dark under the given moments.
fn dark_levels(all: &Moments) -> (table: Vec<bool>)
    requires
        all.sum <= all.count * 255,
    ensures
        table@.len() == 256,
        forall|p: int|
            0 <= p < 256 ==> #[trigger] table@[p] == dark_level(
                p,
                all.count as int,
                all.sum as int,
                all.sum_sq as int,
            ),
{
    let mut table: Vec<bool> = Vec::new();
    let mut p: u64 = 0;
    while p < 256
        invariant
            p <= 256,
            all.sum <= all.count * 255,
            table@.len() == p,
            forall|k: int|
                0 <= k < p ==> #[trigger] table@[k] == dark_level(
                    k,
                    all.count as int,
                    all.sum as int,
                    all.sum_sq as int,
                ),
        decreases 256 - p,
    {
        proof {
            assert(all.count * p <= 0xffff_ffff_ffff_ffff * 255) by (nonlinear_arith)
                requires
                    0 <= all.count <= 0xffff_ffff_ffff_ffff,
                    0 <= p <= 255,
            ;
        }
        let dark: bool = p < 10 || (p < 245 && all.is_below(p, 1, 2));
        table.push(dark);
        p = p + 1;
    }
    table
}

/// The content box of a valid raster.
pub fn content_box(data: &[u8], width: u32, height: u32) -> (b: ContentBox)
    requires
        valid_raster(data@.len() as int, width as int, height as int),
    ensures
        is_content_box(data@, width as int, height as int, b),
        b == content_box_of(data@, width as int, height as int),
{
    let count: usize = (width as usize) * (height as usize);
    let all: Moments = Moments::of_bytes(data, count);
    let table: Vec<bool> = dark_levels(&all);
    let ghost w = width as int;
    let ghost h = height as int;
    let mut found: bool = false;
    let mut min_x: u32 = width - 1;
    let mut min_y: u32 = height - 1;
    let mut max_x: u32 = 0;
    let mut max_y: u32 = 0;
    let ghost mut at_min_x: int = 0;
    let ghost mut at_max_x: int = 0;
    let ghost mut at_min_y: int = 0;
    let ghost mut at_max_y: int = 0;
    let mut y: u32 = 0;
    while y < height
        invariant
            y <= height,
            w == width,
            h == height,
            w * h <= data.len(),
            table@.len() == 256,
            forall|p: int, x: int, r: int|
                0 <= p < 256 && p == pixel(data@, w, x, r) ==> (#[trigger] table@[p]
                    == #[trigger] is_dark(data@, w, h, x, r)),
            found ==> min_x <= max_x < width && min_y <= max_y < y,
            found ==> 0 <= at_min_x < h && is_dark(data@, w, h, min_x as int, at_min_x),
            found ==> 0 <= at_max_x < h && is_dark(data@, w, h, max_x as int, at_max_x),
            found ==> 0 <= at_min_y < w && is_dark(data@, w, h, at_min_y, min_y as int),
            found ==> 0 <= at_max_y < w && is_dark(data@, w, h, at_max_y, max_y as int),
            forall|x: int, r: int|
                0 <= x < w && 0 <= r < y && #[trigger] is_dark(data@, w, h, x, r) ==> found
                    && min_x <= x <= max_x && min_y <= r <= max_y,
        decreases height - y,
    {
        let mut x: u32 = 0;
        while x < width
            invariant
                x <= width,
                y < height,
                w == width,
                h == height,
                w * h <= data.len(),
                table@.len() == 256,
                forall|p: int, c: int, r: int|
                    0 <= p < 256 && p == pixel(data@, w, c, r) ==> (#[trigger] table@[p]
                        == #[trigger] is_dark(data@, w, h, c, r)),
                found ==> min_x <= max_x < width && min_y <= max_y <= y,
                found ==> 0 <= at_min_x < h && is_dark(data@, w, h, min_x as int, at_min_x),
                found ==> 0 <= at_max_x < h && is_dark(data@, w, h, max_x as int, at_max_x),
                found ==> 0 <= at_min_y < w && is_dark(data@, w, h, at_min_y, min_y as int),
                found ==> 0 <= at_max_y < w && is_dark(data@, w, h, at_max_y, max_y as int),
                forall|c: int, r: int|
                    0 <= c < w && 0 <= r < y && #[trigger] is_dark(data@, w, h, c, r) ==> found
                        && min_x <= c <= max_x && min_y <= r <= max_y,
                forall|c: int|
                    0 <= c < x && #[trigger] is_dark(data@, w, h, c, y as int) ==> found && min_x
                        <= c <= max_x && min_y <= y <= max_y,
            decreases width - x,
        {
            proof {
                lemma_offset_in_grid(w, h, x as int, y as int);
            }
            let p: u8 = data[(y as usize) * (width as usize) + (x as usize)];
            assert(p == pixel(data@, w, x as int, y as int));
            if table[p as usize] {
                assert(is_dark(data@, w, h, x as int, y as int));
                if !found || x < min_x {
                    min_x = x;
                    proof {
                        at_min_x = y as int;
                    }
                }
                if !found || x > max_x {
                    max_x = x;
                    proof {
                        at_max_x = y as int;
                    }
                }
                if !found {
                    min_y = y;
                    proof {
                        at_min_y = x as int;
                    }
                }
                max_y = y;
                proof {
                    at_max_y = x as int;
                }
                found = true;
            } else {
                assert(!is_dark(data@, w, h, x as int, y as int));
            }
            x = x + 1;
        }
        y = y + 1;
    }
    let b: ContentBox = if found {
        assert(has_ink(data@, w, h));
        ContentBox { x0: min_x, y0: min_y, x1: max_x, y1: max_y }
    } else {
        assert(!has_ink(data@, w, h));
        ContentBox { x0: 0, y0: 0, x1: width - 1, y1: height - 1 }
    };
    proof {
        assert(is_content_box(data@, w, h, b));
        lemma_content_box_unique(data@, w, h, b, content_box_of(data@, w, h));
    }
    b
}

/// The number of regions in the catalogue.
pub const REGIONS: usize = 9;

/// The identifier of region `i` of the catalogue.
pub open spec fn region_id(i: int) -> Seq<char> {
    if i == 0 {
        "page-bounds"@
    } else if i == 1 {
        "text-block"@
    } else if i == 2 {
        "title"@
    } else if i == 3 {
        "running-head"@
    } else if i == 4 {
        "folio"@
    } else if i == 5 {
        "ornament"@
    } else if i == 6 {
        "drop-cap"@
    } else if i == 7 {
        "footnote"@
    } else {
        "marginalia"@
    }
}

/// The kind of region `i` of the catalogue.
pub open spec fn region_kind(i: int) -> Seq<char> {
    if i == 0 {
        "page_bounds"@
    } else if i == 1 {
        "text_block"@
    } else if i == 2 {
        "title"@
    } else if i == 3 {
        "running_head"@
    } else if i == 4 {
        "folio"@
    } else if i == 5 {
        "ornament"@
    } else if i == 6 {
        "drop_cap"@
    } else if i == 7 {
        "footnote"@
    } else {
        "marginalia"@
    }
}

/// The confidence of region `i` of the catalogue, in hundredths.
pub open spec fn region_confidence(i: int) -> int {
    if i == 0 {
        60
    } else if i == 1 {
        55
    } else if i == 2 {
        55
    } else if i == 3 {
        25
    } else if i == 4 {
        22
    } else if i == 5 {
        20
    } else if i == 6 {
        18
    } else if i == 7 {
        20
    } else {
        18
    }
}

/// Where region `i`, from the third on, lies inside the content box: the
/// fractions of the width and of the height of the box, in hundredths, at
/// which the region starts and ends.
pub open spec fn region_placement(i: int) -> (int, int, int, int) {
    if i == 2 {
        (12, 2, 88, 14)
    } else if i == 3 {
        (10, 0, 90, 8)
    } else if i == 4 {
        (42, 90, 58, 98)
    } else if i == 5 {
        (42, 18, 58, 24)
    } else if i == 6 {
        (2, 18, 10, 32)
    } else if i == 7 {
        (5, 86, 95, 98)
    } else {
        (0, 25, 8, 75)
    }
}

/// The width or the height of a content box that starts at `first` and
/// ends at `last`: their difference, and at least one.
pub open spec fn extent(first: int, last: int) -> int {
    if last - first >= 1 {
        last - first
    } else {
        1
    }
}

/// The coordinate at `fraction` hundredths of `extent` from `origin`, kept
/// within `[0, limit]`, in hundredths of a pixel.
pub open spec fn placed(origin: int, extent: int, fraction: int, limit: int) -> int {
    let at = 100 * origin + extent * fraction;
    if at < 0 {
        0
    } else if at > 100 * limit {
        100 * limit
    } else {
        at
    }
}

/// One region of a page.
#[derive(Clone, Debug, PartialEq, Eq)]
pub struct LayoutElementResult {
    /// The identifier of the region.
    pub id: String,
    /// The kind of the region.
    pub element_type: String,
    /// The first column, the first row, the last column and the last row of
    /// the region.
    pub bbox: Vec<Ratio>,
    /// The confidence in the region, a constant of the catalogue.
    pub confidence: Ratio,
}

impl LayoutElementResult {
    /// This is region `i` of the catalogue, for a raster of `width` by
    /// `height` pixels with content box `b`.
    pub open spec fn is_region(&self, i: int, b: ContentBox, width: int, height: int) -> bool {
        let (fx0, fy0, fx1, fy1) = region_placement(i);
        let across = extent(b.x0 as int, b.x1 as int);
        let down = extent(b.y0 as int, b.y1 as int);
        &&& self.id@ == region_id(i)
        &&& self.element_type@ == region_kind(i)
        &&& self.confidence.is_fraction(region_confidence(i), 100)
        &&& self.bbox@.len() == 4
        &&& if i == 0 {
            &&& self.bbox@[0].is_fraction(0, 1)
            &&& self.bbox@[1].is_fraction(0, 1)
            &&& self.bbox@[2].is_fraction(width - 1, 1)
            &&& self.bbox@[3].is_fraction(height - 1, 1)
        } else if i == 1 {
            &&& self.bbox@[0].is_fraction(b.x0 as int, 1)
            &&& self.bbox@[1].is_fraction(b.y0 as int, 1)
            &&& self.bbox@[2].is_fraction(b.x1 as int, 1)
            &&& self.bbox@[3].is_fraction(b.y1 as int, 1)
        } else {
            &&& self.bbox@[0].is_fraction(placed(b.x0 as int, across, fx0, width - 1), 100)
            &&& self.bbox@[1].is_fraction(placed(b.y0 as int, down, fy0, height - 1), 100)
            &&& self.bbox@[2].is_fraction(placed(b.x0 as int, across, fx1, width - 1), 100)
            &&& self.bbox@[3].is_fraction(placed(b.y0 as int, down, fy1, height - 1), 100)
        }
    }
}

/// `regions` is the catalogue for a raster of `width` by `height` pixels
/// with content box `b`.
pub open spec fn is_catalogue(
    regions: Seq<LayoutElementResult>,
    b: ContentBox,
    width: int,
    height: int,
) -> bool {
    &&& regions.len() == REGIONS
    &&& forall|i: int| 0 <= i < REGIONS ==> (#[trigger] regions[i]).is_region(i, b, width, height)
}

/// The coordinate at `fraction` hundredths of `extent` from `origin`, at
/// most `limit`, in hundredths of a pixel.
fn place(origin: u32, extent: u32, fraction: u8, limit: u32) -> (r: Ratio)
    requires
        fraction <= 100,
    ensures
        r.is_fraction(placed(origin as int, extent as int, fraction as int, limit as int), 100),
{
    assert(extent * fraction <= 0xffff_ffff * 100) by (nonlinear_arith)
        requires
            0 <= extent <= 0xffff_ffff,
            0 <= fraction <= 100,
    ;
    let at: u64 = 100 * (origin as u64) + (extent as u64) * (fraction as u64);
    let most: u64 = 100 * (limit as u64);
    Ratio::new(if at > most { most } else { at }, 100)
}

/// A box given by four whole coordinates.
fn whole_box(x0: u32, y0: u32, x1: u32, y1: u32) -> (bbox: Vec<Ratio>)
    ensures
        bbox@.len() == 4,
        bbox@[0].is_fraction(x0 as int, 1),
        bbox@[1].is_fraction(y0 as int, 1),
        bbox@[2].is_fraction(x1 as int, 1),
        bbox@[3].is_fraction(y1 as int, 1),
{
    let mut bbox: Vec<Ratio> = Vec::new();
    bbox.push(Ratio::whole(x0 as u64));
    bbox.push(Ratio::whole(y0 as u64));
    bbox.push(Ratio::whole(x1 as u64));
    bbox.push(Ratio::whole(y1 as u64));
    bbox
}

/// The region of the catalogue with the given names and confidence, placed
/// inside the content box at the given fractions.
fn region_inside(
    id: &str,
    kind: &str,
    confidence: u8,
    placement: (u8, u8, u8, u8),
    b: ContentBox,
    width: u32,
    height: u32,
) -> (r: LayoutElementResult)
    requires
        width > 0,
        height > 0,
        placement.0 <= 100 && placement.1 <= 100 && placement.2 <= 100 && placement.3 <= 100,
    ensures
        r.id@ == id@,
        r.element_type@ == kind@,
        r.confidence.is_fraction(confidence as int, 100),
        r.bbox@.len() == 4,
        r.bbox@[0].is_fraction(
            placed(
                b.x0 as int,
                extent(b.x0 as int, b.x1 as int),
                placement.0 as int,
                width - 1,
            ),
            100,
        ),
        r.bbox@[1].is_fraction(
            placed(
                b.y0 as int,
                extent(b.y0 as int, b.y1 as int),
                placement.1 as int,
                height - 1,
            ),
            100,
        ),
        r.bbox@[2].is_fraction(
            placed(
                b.x0 as int,
                extent(b.x0 as int, b.x1 as int),
                placement.2 as int,
                width - 1,
            ),
            100,
        ),
        r.bbox@[3].is_fraction(
            placed(
                b.y0 as int,
                extent(b.y0 as int, b.y1 as int),
                placement.3 as int,
                height - 1,
            ),
            100,
        ),
{
    let across: u32 = if b.x1 > b.x0 { b.x1 - b.x0 } else { 1 };
    let down: u32 = if b.y1 > b.y0 { b.y1 - b.y0 } else { 1 };
    let mut bbox: Vec<Ratio> = Vec::new();
    bbox.push(place(b.x0, across, placement.0, width - 1));
    bbox.push(place(b.y0, down, placement.1, height - 1));
    bbox.push(place(b.x0, across, placement.2, width - 1));
    bbox.push(place(b.y0, down, placement.3, height - 1));
    LayoutElementResult {
        id: id.to_owned(),
        element_type: kind.to_owned(),
        bbox,
        confidence: Ratio::new(confidence as u64, 100),
    }
}

/// The catalogue of regions for a raster of `width` by `height` pixels with
/// content box `b`.
pub fn catalogue(b: ContentBox, width: u32, height: u32) -> (regions: Vec<LayoutElementResult>)
    requires
        width > 0,
        height > 0,
    ensures
        is_catalogue(regions@, b, width as int, height as int),
{
    let mut regions: Vec<LayoutElementResult> = Vec::new();
    regions.push(
        LayoutElementResult {
            id: "page-bounds".to_owned(),
            element_type: "page_bounds".to_owned(),
            bbox: whole_box(0, 0, width - 1, height - 1),
            confidence: Ratio::new(60, 100),
        },
    );
    regions.push(
        LayoutElementResult {
            id: "text-block".to_owned(),
            element_type: "text_block".to_owned(),
            bbox: whole_box(b.x0, b.y0, b.x1, b.y1),
            confidence: Ratio::new(55, 100),
        },
    );
    regions.push(region_inside("title", "title", 55, (12, 2, 88, 14), b, width, height));
    regions.push(
        region_inside("running-head", "running_head", 25, (10, 0, 90, 8), b, width, height),
    );
    regions.push(region_inside("folio", "folio", 22, (42, 90, 58, 98), b, width, height));
    regions.push(region_inside("ornament", "ornament", 20, (42, 18, 58, 24), b, width, height));
    regions.push(region_inside("drop-cap", "drop_cap", 18, (2, 18, 10, 32), b, width, height));
    regions.push(region_inside("footnote", "footnote", 20, (5, 86, 95, 98), b, width, height));
    regions.push(region_inside("marginalia", "marginalia", 18, (0, 25, 8, 75), b, width, height));
    assert(regions@[0].is_region(0, b, width as int, height as int));
    assert(regions@[1].is_region(1, b, width as int, height as int));
    assert(regions@[2].is_region(2, b, width as int, height as int));
    assert(regions@[3].is_region(3, b, width as int, height as int));
    assert(regions@[4].is_region(4, b, width as int, height as int));
    assert(regions@[5].is_region(5, b, width as int, height as int));
    assert(regions@[6].is_region(6, b, width as int, height as int));
    assert(regions@[7].is_region(7, b, width as int, height as int));
    assert(regions@[8].is_region(8, b, width as int, height as int));
    regions
}

/// The regions of a raster given with its dimensions: the catalogue for its
/// content box, or nothing where the input is invalid.
pub fn detect_layout_elements_js(data: &[u8], width: u32, height: u32) -> (regions: Vec<
    LayoutElementResult,
>)
    ensures
        valid_raster(data@.len() as int, width as int, height as int) ==> is_catalogue(
            regions@,
            content_box_of(data@, width as int, height as int),
            width as int,
            height as int,
        ),
        !valid_raster(data@.len() as int, width as int, height as int) ==> regions@.len() == 0,
{
    match raster_len(data.len(), width, height) {
        Some(_) => {
            let b: ContentBox = content_box(data, width, height);
            catalogue(b, width, height)
        },
        None => Vec::new(),
    }
}

/// The catalogue of a valid raster has nine regions, and its first is the
/// page itself: it is named "page-bounds" and spans the whole raster.
pub proof fn lemma_catalogue_starts_with_page(
    regions: Seq<LayoutElementResult>,
    b: ContentBox,
    width: int,
    height: int,
)
    requires
        is_catalogue(regions, b, width, height),
    ensures
        regions.len() == 9,
        regions[0].id@ == "page-bounds"@,
        regions[0].bbox@.len() == 4,
        regions[0].bbox@[0].is_fraction(0, 1),
        regions[0].bbox@[1].is_fraction(0, 1),
        regions[0].bbox@[2].is_fraction(width - 1, 1),
        regions[0].bbox@[3].is_fraction(height - 1, 1),
{
    assert(regions[0].is_region(0, b, width, height));
}

} // verus!
