//! The Sobel gradient of a raster and the map of its magnitudes.
//!
//! The gradient is computed at every interior pixel from its eight
//! neighbours, with the kernels
//!
//! ```text
//!      -1 0 1          1  2  1
//! Gx = -2 0 2     Gy = 0  0  0
//!      -1 0 1         -1 -2 -1
//! ```
//!
//! and the magnitude is the square root of `Gx^2 + Gy^2`, rounded to the
//! nearest integer. The pixels of the border have magnitude zero.

use vstd::prelude::*;
use vstd::arithmetic::div_mod::{
    lemma_fundamental_div_mod,
    lemma_mod_bound,
    lemma_multiply_divide_lt,
};
use crate::raster::{lemma_offset_in_grid, lemma_row_in_grid, offset, pixel, raster_len, valid_raster};

verus! {

/// The horizontal component of the gradient at the pixel in column `x` of
/// row `y`.
pub open spec fn gradient_x(data: Seq<u8>, width: int, x: int, y: int) -> int {
    (pixel(data, width, x + 1, y - 1) - pixel(data, width, x - 1, y - 1)) + 2 * (pixel(
        data,
        width,
        x + 1,
        y,
    ) - pixel(data, width, x - 1, y)) + (pixel(data, width, x + 1, y + 1) - pixel(
        data,
        width,
        x - 1,
        y + 1,
    ))
}

/// The vertical component of the gradient at the pixel in column `x` of row
/// `y`.
pub open spec fn gradient_y(data: Seq<u8>, width: int, x: int, y: int) -> int {
    (pixel(data, width, x - 1, y - 1) - pixel(data, width, x - 1, y + 1)) + 2 * (pixel(
        data,
        width,
        x,
        y - 1,
    ) - pixel(data, width, x, y + 1)) + (pixel(data, width, x + 1, y - 1) - pixel(
        data,
        width,
        x + 1,
        y + 1,
    ))
}

/// The squared magnitude of the gradient at the pixel in column `x` of row
/// `y`.
pub open spec fn energy(data: Seq<u8>, width: int, x: int, y: int) -> int {
    gradient_x(data, width, x, y) * gradient_x(data, width, x, y) + gradient_y(data, width, x, y)
        * gradient_y(data, width, x, y)
}

/// The greatest squared magnitude of a gradient: both components at 1020.
pub const MAX_ENERGY: u32 = 2080800;

/// `r` is the integer nearest to the square root of `n`: it differs from the
/// root by less than a half, which over the integers reads
/// `r * r - r < n <= r * r + r`, the lower bound being void at zero.
pub open spec fn is_nearest_root(n: int, r: int) -> bool {
    &&& r >= 0
    &&& n <= r * r + r
    &&& (r == 0 || r * r - r < n)
}

/// The pixel in column `x` of row `y` lies inside the border of the raster.
pub open spec fn is_interior(width: int, height: int, x: int, y: int) -> bool {
    1 <= x < width - 1 && 1 <= y < height - 1
}

/// `m` is the magnitude at the pixel in column `x` of row `y`: the rounded
/// root of the energy at an interior pixel, and zero on the border.
pub open spec fn is_magnitude(m: int, data: Seq<u8>, width: int, height: int, x: int, y: int) -> bool {
    if is_interior(width, height, x, y) {
        is_nearest_root(energy(data, width, x, y), m)
    } else {
        m == 0
    }
}

/// `map` is the magnitude map of a raster of `width` by `height` pixels.
pub open spec fn is_magnitude_map(map: Seq<u16>, data: Seq<u8>, width: int, height: int) -> bool {
    &&& map.len() == width * height
    &&& forall|x: int, y: int|
        0 <= x < width && 0 <= y < height ==> is_magnitude(
            #[trigger] map[offset(width, x, y)] as int,
            data,
            width,
            height,
            x,
            y,
        )
}

/// A number has one nearest root.
pub proof fn lemma_nearest_root_unique(n: int, r: int, s: int)
    requires
        is_nearest_root(n, r),
        is_nearest_root(n, s),
    ensures
        r == s,
{
    assert(r == s) by (nonlinear_arith)
        requires
            r >= 0,
            s >= 0,
            n <= r * r + r,
            n <= s * s + s,
            r == 0 || r * r - r < n,
            s == 0 || s * s - s < n,
    ;
}

/// A raster has one magnitude map: computing it twice gives the same map.
pub proof fn lemma_magnitude_map_unique(
    a: Seq<u16>,
    b: Seq<u16>,
    data: Seq<u8>,
    width: int,
    height: int,
)
    requires
        width >= 0,
        height >= 0,
        is_magnitude_map(a, data, width, height),
        is_magnitude_map(b, data, width, height),
    ensures
        a == b,
{
    assert forall|i: int| 0 <= i < a.len() implies a[i] == b[i] by {
        if width == 0 {
            assert(width * height == 0) by (nonlinear_arith)
                requires
                    width == 0,
            ;
        } else {
            let x = i % width;
            let y = i / width;
            lemma_fundamental_div_mod(i, width);
            lemma_mod_bound(i, width);
            lemma_multiply_divide_lt(i, width, height);
            vstd::arithmetic::div_mod::lemma_div_pos_is_pos(i, width);
            assert(width * y == y * width) by (nonlinear_arith);
            assert(offset(width, x, y) == i);
            assert(is_magnitude(a[offset(width, x, y)] as int, data, width, height, x, y));
            assert(is_magnitude(b[offset(width, x, y)] as int, data, width, height, x, y));
            if is_interior(width, height, x, y) {
                lemma_nearest_root_unique(energy(data, width, x, y), a[i] as int, b[i] as int);
            }
        }
    }
    assert(a =~= b);
}

/// The integer nearest to the square root of `n`.
pub fn nearest_root(n: u32) -> (r: u32)
    ensures
        is_nearest_root(n as int, r as int),
        r <= 65536,
{
    let mut low: u64 = 0;
    let mut high: u64 = 65536;
    while high - low > 1
        invariant
            low < high <= 65536,
            low * low <= n,
            n < high * high,
        decreases high - low,
    {
        let mid: u64 = low + (high - low) / 2;
        assert(mid * mid <= 65536 * 65536) by (nonlinear_arith)
            requires
                0 <= mid <= 65536,
        ;
        if mid * mid <= n as u64 {
            low = mid;
        } else {
            high = mid;
        }
    }
    assert(low * low + 2 * low + 1 == high * high) by (nonlinear_arith)
        requires
            high == low + 1,
    ;
    assert(low * low <= 65535 * 65535) by (nonlinear_arith)
        requires
            0 <= low <= 65535,
    ;
    if n as u64 - low * low > low {
        assert((low + 1) * (low + 1) - (low + 1) == low * low + low) by (nonlinear_arith);
        (low + 1) as u32
    } else {
        assert(low == 0 || low * low - low < low * low) by (nonlinear_arith)
            requires
                low >= 0,
        ;
        low as u32
    }
}

/// The gradient at an interior pixel.
pub fn gradient_at(data: &[u8], width: usize, height: usize, x: usize, y: usize) -> (g: (i32, i32))
    requires
        width * height <= data.len(),
        is_interior(width as int, height as int, x as int, y as int),
    ensures
        g.0 == gradient_x(data@, width as int, x as int, y as int),
        g.1 == gradient_y(data@, width as int, x as int, y as int),
        -1020 <= g.0 <= 1020,
        -1020 <= g.1 <= 1020,
{
    proof {
        lemma_row_in_grid(width as int, height as int, y - 1);
        lemma_row_in_grid(width as int, height as int, y as int);
        lemma_row_in_grid(width as int, height as int, y + 1);
    }
    let above: usize = (y - 1) * width + x;
    let level: usize = y * width + x;
    let under: usize = (y + 1) * width + x;
    let nw: i32 = data[above - 1] as i32;
    let n: i32 = data[above] as i32;
    let ne: i32 = data[above + 1] as i32;
    let w: i32 = data[level - 1] as i32;
    let e: i32 = data[level + 1] as i32;
    let sw: i32 = data[under - 1] as i32;
    let s: i32 = data[under] as i32;
    let se: i32 = data[under + 1] as i32;
    ((ne - nw) + 2 * (e - w) + (se - sw), (nw - sw) + 2 * (n - s) + (ne - se))
}

/// The magnitude of a gradient within the range of the kernels. It is at
/// most 1442 and so fits its 16 bits.
pub fn magnitude_of(gx: i32, gy: i32) -> (m: u16)
    requires
        -1020 <= gx <= 1020,
        -1020 <= gy <= 1020,
    ensures
        is_nearest_root(gx * gx + gy * gy, m as int),
{
    assert(0 <= gx * gx <= 1040400 && 0 <= gy * gy <= 1040400) by (nonlinear_arith)
        requires
            -1020 <= gx <= 1020,
            -1020 <= gy <= 1020,
    ;
    let n: u32 = (gx * gx + gy * gy) as u32;
    let r: u32 = nearest_root(n);
    assert(r <= 1443) by (nonlinear_arith)
        requires
            r == 0 || r * r - r < n,
            n <= 2080800,
            r >= 0,
    ;
    r as u16
}

/// The magnitude map of a raster: one magnitude per pixel, row by row.
pub fn sobel_magnitude(data: &[u8], width: usize, height: usize) -> (map: Vec<u16>)
    requires
        width * height <= usize::MAX,
        width >= 3 && height >= 3 ==> width * height <= data.len(),
    ensures
        is_magnitude_map(map@, data@, width as int, height as int),
{
    let mut map: Vec<u16> = Vec::new();
    let mut y: usize = 0;
    while y < height
        invariant
            y <= height,
            width >= 3 && height >= 3 ==> width * height <= data.len(),
            map@.len() == y * width,
            forall|cx: int, cy: int|
                0 <= cx < width && 0 <= cy < y ==> is_magnitude(
                    #[trigger] map@[offset(width as int, cx, cy)] as int,
                    data@,
                    width as int,
                    height as int,
                    cx,
                    cy,
                ),
        decreases height - y,
    {
        let mut x: usize = 0;
        while x < width
            invariant
                x <= width,
                y < height,
                width >= 3 && height >= 3 ==> width * height <= data.len(),
                map@.len() == y * width + x,
                forall|cx: int, cy: int|
                    0 <= cx < width && 0 <= cy < y ==> is_magnitude(
                        #[trigger] map@[offset(width as int, cx, cy)] as int,
                        data@,
                        width as int,
                        height as int,
                        cx,
                        cy,
                    ),
                forall|cx: int|
                    0 <= cx < x ==> is_magnitude(
                        #[trigger] map@[offset(width as int, cx, y as int)] as int,
                        data@,
                        width as int,
                        height as int,
                        cx,
                        y as int,
                    ),
            decreases width - x,
        {
            let ghost before = map@;
            let inside: bool = 1 <= x && x + 1 < width && 1 <= y && y + 1 < height;
            let m: u16 = if inside {
                let (gx, gy) = gradient_at(data, width, height, x, y);
                magnitude_of(gx, gy)
            } else {
                0
            };
            map.push(m);
            proof {
                assert forall|cx: int, cy: int| 0 <= cx < width && 0 <= cy < y implies is_magnitude(
                    #[trigger] map@[offset(width as int, cx, cy)] as int,
                    data@,
                    width as int,
                    height as int,
                    cx,
                    cy,
                ) by {
                    lemma_row_in_grid(width as int, y as int, cy);
                    assert(map@[offset(width as int, cx, cy)] == before[offset(
                        width as int,
                        cx,
                        cy,
                    )]);
                }
                assert forall|cx: int| 0 <= cx < x + 1 implies is_magnitude(
                    #[trigger] map@[offset(width as int, cx, y as int)] as int,
                    data@,
                    width as int,
                    height as int,
                    cx,
                    y as int,
                ) by {
                    if cx < x {
                        assert(map@[offset(width as int, cx, y as int)] == before[offset(
                            width as int,
                            cx,
                            y as int,
                        )]);
                    }
                }
            }
            x = x + 1;
        }
        proof {
            assert(y * width + width == (y + 1) * width) by (nonlinear_arith);
        }
        y = y + 1;
    }
    proof {
        assert(height * width == width * height) by (nonlinear_arith);
    }
    map
}

/// `map` is the blank map returned for an invalid raster: one zero per
/// pixel of the stated dimensions, as far as a buffer can hold them.
pub open spec fn is_blank_map(map: Seq<u16>, width: int, height: int) -> bool {
    &&& map.len() == (if width * height <= usize::MAX {
        width * height
    } else {
        usize::MAX as int
    })
    &&& forall|i: int| 0 <= i < map.len() ==> #[trigger] map[i] == 0
}

/// A map of `n` zeros.
fn blank_map(n: usize) -> (map: Vec<u16>)
    ensures
        map@.len() == n,
        forall|i: int| 0 <= i < n ==> #[trigger] map@[i] == 0,
{
    let mut map: Vec<u16> = Vec::new();
    let mut i: usize = 0;
    while i < n
        invariant
            i <= n,
            map@.len() == i,
            forall|k: int| 0 <= k < i ==> #[trigger] map@[k] == 0,
        decreases n - i,
    {
        map.push(0);
        i = i + 1;
    }
    map
}

/// The magnitude map of a raster given with its dimensions, and a blank map
/// where the input is invalid.
pub fn sobel_magnitude_js(data: &[u8], width: u32, height: u32) -> (map: Vec<u16>)
    ensures
        valid_raster(data@.len() as int, width as int, height as int) ==> is_magnitude_map(
            map@,
            data@,
            width as int,
            height as int,
        ),
        !valid_raster(data@.len() as int, width as int, height as int) ==> is_blank_map(
            map@,
            width as int,
            height as int,
        ),
{
    match raster_len(data.len(), width, height) {
        Some(_) => sobel_magnitude(data, width as usize, height as usize),
        None => {
            let n: usize = match (width as usize).checked_mul(height as usize) {
                Some(n) => n,
                None => usize::MAX,
            };
            blank_map(n)
        },
    }
}

/// On the border of a raster the magnitude is zero, and so it is throughout
/// a raster with fewer than three columns or fewer than three rows.
pub proof fn lemma_border_is_blank(
    map: Seq<u16>,
    data: Seq<u8>,
    width: int,
    height: int,
    x: int,
    y: int,
)
    requires
        is_magnitude_map(map, data, width, height),
        0 <= x < width,
        0 <= y < height,
        x == 0 || y == 0 || x == width - 1 || y == height - 1 || width < 3 || height < 3,
    ensures
        map[offset(width, x, y)] == 0,
{
    assert(is_magnitude(map[offset(width, x, y)] as int, data, width, height, x, y));
}

} // verus!
