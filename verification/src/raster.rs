//! The raster model: a row-major grid of 8-bit intensities inside a byte
//! buffer that may be longer than the grid.

use vstd::prelude::*;

verus! {

/// A buffer of `len` bytes holds a raster of `width` by `height` pixels:
/// both dimensions are positive and the buffer is long enough.
pub open spec fn valid_raster(len: int, width: int, height: int) -> bool {
    width > 0 && height > 0 && width * height <= len
}

/// The offset in the buffer of the pixel in column `x` of row `y`.
pub open spec fn offset(width: int, x: int, y: int) -> int {
    y * width + x
}

/// The intensity of the pixel in column `x` of row `y`.
pub open spec fn pixel(data: Seq<u8>, width: int, x: int, y: int) -> int {
    data[offset(width, x, y)] as int
}

/// Row `y` of a `width` by `height` grid starts at offset `y * width` and
/// ends within the grid.
pub proof fn lemma_row_in_grid(width: int, height: int, y: int)
    requires
        0 <= width,
        0 <= y < height,
    ensures
        0 <= y * width,
        y * width + width <= width * height,
        width * height == height * width,
{
    assert(width * height == height * width) by (nonlinear_arith);
    assert(0 <= y * width) by (nonlinear_arith)
        requires
            0 <= y,
            0 <= width,
    ;
    assert(y * width + width <= width * height) by (nonlinear_arith)
        requires
            0 <= y < height,
            0 <= width,
    ;
}

/// Every pixel of a `width` by `height` grid has an offset below
/// `width * height`.
pub proof fn lemma_offset_in_grid(width: int, height: int, x: int, y: int)
    requires
        0 <= x < width,
        0 <= y < height,
    ensures
        0 <= y * width + x < width * height,
{
    lemma_row_in_grid(width, height, y);
}

/// Validates the geometry of a raster against the length of its buffer and
/// returns the number of pixels, or `None` where the input is invalid.
pub fn raster_len(len: usize, width: u32, height: u32) -> (count: Option<usize>)
    ensures
        count.is_some() == valid_raster(len as int, width as int, height as int),
        count matches Some(n) ==> n == width * height,
{
    if width == 0 || height == 0 {
        return None;
    }
    assert(width * height <= 0xffff_ffff * 0xffff_ffff) by (nonlinear_arith)
        requires
            width <= 0xffff_ffff,
            height <= 0xffff_ffff,
    ;
    let pixels: u64 = (width as u64) * (height as u64);
    if pixels > len as u64 {
        None
    } else {
        Some(pixels as usize)
    }
}

} // verus!
