//! Projection profiles: the sums of the intensities of each row and of each
//! column, and their ink counterparts, which sum `255 - intensity`.

use vstd::prelude::*;
use crate::raster::{lemma_offset_in_grid, lemma_row_in_grid, pixel, raster_len, valid_raster};
use crate::summation::{lemma_sum_bounds, sum_to};

verus! {

/// The intensities of row `y`, as a function of the column.
pub open spec fn row_of(data: Seq<u8>, width: int, y: int) -> spec_fn(int) -> int {
    |x: int| pixel(data, width, x, y)
}

/// The intensities of column `x`, as a function of the row.
pub open spec fn column_of(data: Seq<u8>, width: int, x: int) -> spec_fn(int) -> int {
    |y: int| pixel(data, width, x, y)
}

/// The sum of the intensities of row `y`.
pub open spec fn row_sum(data: Seq<u8>, width: int, y: int) -> int {
    sum_to(row_of(data, width, y), width as nat)
}

/// The sum of the intensities of column `x`.
pub open spec fn column_sum(data: Seq<u8>, width: int, height: int, x: int) -> int {
    sum_to(column_of(data, width, x), height as nat)
}

/// The ink of row `y`: the sum of `255 - intensity` over the row.
pub open spec fn row_ink(data: Seq<u8>, width: int, y: int) -> int {
    255 * width - row_sum(data, width, y)
}

/// The ink of column `x`: the sum of `255 - intensity` down the column.
pub open spec fn column_ink(data: Seq<u8>, width: int, height: int, x: int) -> int {
    255 * height - column_sum(data, width, height, x)
}

/// What a 32-bit accumulator holds after adding up `total`.
pub open spec fn wrapped(total: int) -> int {
    total % 0x1_0000_0000
}

/// `profile` is the row projection of a `width` by `height` raster.
pub open spec fn is_row_projection(
    profile: Seq<u32>,
    data: Seq<u8>,
    width: int,
    height: int,
) -> bool {
    &&& profile.len() == height
    &&& forall|y: int|
        0 <= y < height ==> #[trigger] profile[y] == wrapped(row_sum(data, width, y))
}

/// `profile` is the column projection of a `width` by `height` raster.
pub open spec fn is_column_projection(
    profile: Seq<u32>,
    data: Seq<u8>,
    width: int,
    height: int,
) -> bool {
    &&& profile.len() == width
    &&& forall|x: int|
        0 <= x < width ==> #[trigger] profile[x] == wrapped(column_sum(data, width, height, x))
}

/// In a raster filled with one intensity `v`, every row sums to `v * width`
/// and every column to `v * height`.
pub proof fn lemma_uniform_sums(data: Seq<u8>, width: int, height: int, v: u8)
    requires
        width > 0,
        height > 0,
        data.len() == width * height,
        forall|i: int| 0 <= i < data.len() ==> #[trigger] data[i] == v,
    ensures
        forall|y: int| 0 <= y < height ==> #[trigger] row_sum(data, width, y) == v * width,
        forall|x: int| 0 <= x < width ==> #[trigger] column_sum(data, width, height, x) == v * height,
{
    assert forall|y: int| 0 <= y < height implies #[trigger] row_sum(data, width, y) == v
        * width by {
        let f = row_of(data, width, y);
        assert forall|x: int| 0 <= x < width implies v <= #[trigger] f(x) <= v by {
            lemma_offset_in_grid(width, height, x, y);
        }
        lemma_sum_bounds(f, width as nat, v as int, v as int);
        assert(width * v == v * width) by (nonlinear_arith);
    }
    assert forall|x: int| 0 <= x < width implies #[trigger] column_sum(data, width, height, x) == v
        * height by {
        let f = column_of(data, width, x);
        assert forall|y: int| 0 <= y < height implies v <= #[trigger] f(y) <= v by {
            lemma_offset_in_grid(width, height, x, y);
        }
        lemma_sum_bounds(f, height as nat, v as int, v as int);
        assert(height * v == v * height) by (nonlinear_arith);
    }
}

/// The projections of a raster filled with one intensity `v` are `v * width`
/// for every row and `v * height` for every column, where these fit the 32
/// bits of an entry.
pub proof fn lemma_uniform_projections(
    rows: Seq<u32>,
    cols: Seq<u32>,
    data: Seq<u8>,
    width: int,
    height: int,
    v: u8,
)
    requires
        width > 0,
        height > 0,
        data.len() == width * height,
        forall|i: int| 0 <= i < data.len() ==> #[trigger] data[i] == v,
        is_row_projection(rows, data, width, height),
        is_column_projection(cols, data, width, height),
    ensures
        v * width <= u32::MAX ==> forall|y: int| 0 <= y < height ==> #[trigger] rows[y] == v * width,
        v * height <= u32::MAX ==> forall|x: int|
            0 <= x < width ==> #[trigger] cols[x] == v * height,
{
    lemma_uniform_sums(data, width, height, v);
    assert(0 <= v * width && 0 <= v * height) by (nonlinear_arith)
        requires
            v >= 0,
            width > 0,
            height > 0,
    ;
}

/// The row projection: for each row the sum of its intensities, in a 32-bit
/// accumulator that wraps.
pub fn projection_profile_y(data: &[u8], width: usize, height: usize) -> (rows: Vec<u32>)
    requires
        width * height <= data.len(),
    ensures
        is_row_projection(rows@, data@, width as int, height as int),
{
    let mut rows: Vec<u32> = Vec::new();
    let mut y: usize = 0;
    while y < height
        invariant
            y <= height,
            width * height <= data.len(),
            rows.len() == y,
            forall|j: int|
                0 <= j < y ==> #[trigger] rows[j] == wrapped(row_sum(data@, width as int, j)),
        decreases height - y,
    {
        let ghost f = row_of(data@, width as int, y as int);
        proof {
            lemma_row_in_grid(width as int, height as int, y as int);
        }
        let offset: usize = y * width;
        let mut sum: u32 = 0;
        let mut x: usize = 0;
        while x < width
            invariant
                x <= width,
                offset == y * width,
                offset + width <= data.len(),
                f == row_of(data@, width as int, y as int),
                sum == wrapped(sum_to(f, x as nat)),
            decreases width - x,
        {
            sum = sum.wrapping_add(data[offset + x] as u32);
            x = x + 1;
        }
        rows.push(sum);
        y = y + 1;
    }
    rows
}

/// The column projection: for each column the sum of its intensities, in a
/// 32-bit accumulator that wraps.
pub fn projection_profile_x(data: &[u8], width: usize, height: usize) -> (cols: Vec<u32>)
    requires
        width * height <= data.len(),
    ensures
        is_column_projection(cols@, data@, width as int, height as int),
{
    let mut cols: Vec<u32> = Vec::new();
    let mut x: usize = 0;
    while x < width
        invariant
            x <= width,
            width * height <= data.len(),
            cols.len() == x,
            forall|j: int|
                0 <= j < x ==> #[trigger] cols[j] == wrapped(
                    column_sum(data@, width as int, height as int, j),
                ),
        decreases width - x,
    {
        let ghost f = column_of(data@, width as int, x as int);
        let mut sum: u32 = 0;
        let mut y: usize = 0;
        while y < height
            invariant
                y <= height,
                x < width,
                width * height <= data.len(),
                f == column_of(data@, width as int, x as int),
                sum == wrapped(sum_to(f, y as nat)),
            decreases height - y,
        {
            proof {
                lemma_offset_in_grid(width as int, height as int, x as int, y as int);
            }
            sum = sum.wrapping_add(data[y * width + x] as u32);
            y = y + 1;
        }
        cols.push(sum);
        x = x + 1;
    }
    cols
}

/// The row projection of a raster given with its dimensions: one sum per
/// row, or nothing where the input is invalid.
pub fn projection_profile_y_js(data: &[u8], width: u32, height: u32) -> (rows: Vec<u32>)
    ensures
        valid_raster(data@.len() as int, width as int, height as int) ==> is_row_projection(
            rows@,
            data@,
            width as int,
            height as int,
        ),
        !valid_raster(data@.len() as int, width as int, height as int) ==> rows@.len() == 0,
{
    match raster_len(data.len(), width, height) {
        Some(_) => projection_profile_y(data, width as usize, height as usize),
        None => Vec::new(),
    }
}

/// The column projection of a raster given with its dimensions: one sum per
/// column, or nothing where the input is invalid.
pub fn projection_profile_x_js(data: &[u8], width: u32, height: u32) -> (cols: Vec<u32>)
    ensures
        valid_raster(data@.len() as int, width as int, height as int) ==> is_column_projection(
            cols@,
            data@,
            width as int,
            height as int,
        ),
        !valid_raster(data@.len() as int, width as int, height as int) ==> cols@.len() == 0,
{
    match raster_len(data.len(), width, height) {
        Some(_) => projection_profile_x(data, width as usize, height as usize),
        None => Vec::new(),
    }
}

/// The ink of each row of a valid raster.
pub fn ink_rows(data: &[u8], width: u32, height: u32) -> (rows: Vec<u64>)
    requires
        valid_raster(data@.len() as int, width as int, height as int),
    ensures
        rows@.len() == height,
        forall|y: int| 0 <= y < height ==> #[trigger] rows[y] == row_ink(data@, width as int, y),
        forall|y: int| 0 <= y < height ==> #[trigger] rows[y] <= 255 * width,
{
    let mut rows: Vec<u64> = Vec::new();
    let mut y: usize = 0;
    while y < height as usize
        invariant
            y <= height,
            width * height <= data.len(),
            rows.len() == y,
            forall|j: int| 0 <= j < y ==> #[trigger] rows[j] == row_ink(data@, width as int, j),
            forall|j: int| 0 <= j < y ==> #[trigger] rows[j] <= 255 * width,
        decreases height - y,
    {
        let ghost f = row_of(data@, width as int, y as int);
        proof {
            lemma_row_in_grid(width as int, height as int, y as int);
        }
        let offset: usize = y * (width as usize);
        let mut ink: u64 = 0;
        let mut x: usize = 0;
        while x < width as usize
            invariant
                x <= width,
                offset == y * width,
                offset + width <= data.len(),
                f == row_of(data@, width as int, y as int),
                ink == 255 * x - sum_to(f, x as nat),
                ink <= 255 * x,
            decreases width - x,
        {
            ink = ink + (255 - data[offset + x]) as u64;
            x = x + 1;
        }
        rows.push(ink);
        y = y + 1;
    }
    rows
}

/// The ink of each column of a valid raster.
pub fn ink_columns(data: &[u8], width: u32, height: u32) -> (cols: Vec<u64>)
    requires
        valid_raster(data@.len() as int, width as int, height as int),
    ensures
        cols@.len() == width,
        forall|x: int|
            0 <= x < width ==> #[trigger] cols[x] == column_ink(
                data@,
                width as int,
                height as int,
                x,
            ),
        forall|x: int| 0 <= x < width ==> #[trigger] cols[x] <= 255 * height,
{
    let mut cols: Vec<u64> = Vec::new();
    let mut x: usize = 0;
    while x < width as usize
        invariant
            x <= width,
            width * height <= data.len(),
            cols.len() == x,
            forall|j: int|
                0 <= j < x ==> #[trigger] cols[j] == column_ink(
                    data@,
                    width as int,
                    height as int,
                    j,
                ),
            forall|j: int| 0 <= j < x ==> #[trigger] cols[j] <= 255 * height,
        decreases width - x,
    {
        let ghost f = column_of(data@, width as int, x as int);
        let mut ink: u64 = 0;
        let mut y: usize = 0;
        while y < height as usize
            invariant
                y <= height,
                x < width,
                width * height <= data.len(),
                f == column_of(data@, width as int, x as int),
                ink == 255 * y - sum_to(f, y as nat),
                ink <= 255 * y,
            decreases height - y,
        {
            proof {
                lemma_offset_in_grid(width as int, height as int, x as int, y as int);
            }
            ink = ink + (255 - data[y * (width as usize) + x]) as u64;
            y = y + 1;
        }
        cols.push(ink);
        x = x + 1;
    }
    cols
}

} // verus!
