//! Column metrics: the vertical bands of ink of a page, found as the runs of
//! consecutive columns whose ink exceeds `mean + 0.7 * deviation` of the
//! column inks.

use vstd::prelude::*;
use crate::moments::{above, samples, squares, Moments, SAMPLE_LIMIT};
use crate::projection::{column_ink, ink_columns};
use crate::raster::{raster_len, valid_raster};
use crate::summation::sum_to;

verus! {

/// The ink of each column of a raster.
pub open spec fn column_profile(data: Seq<u8>, width: int, height: int) -> Seq<u64> {
    Seq::new(width as nat, |x: int| column_ink(data, width, height, x) as u64)
}

/// Column `x` lies in a band: its ink exceeds the mean of the profile plus
/// seven tenths of its standard deviation.
pub open spec fn in_band(profile: Seq<u64>, x: int) -> bool {
    above(
        profile[x] as int,
        profile.len() as int,
        sum_to(samples(profile), profile.len()),
        sum_to(squares(samples(profile)), profile.len()),
        7,
        10,
    )
}

/// One for a column that starts a band, the first column or one whose left
/// neighbour lies in no band, and zero for any other column.
pub open spec fn band_start(profile: Seq<u64>) -> spec_fn(int) -> int {
    |x: int|
        if in_band(profile, x) && (x == 0 || !in_band(profile, x - 1)) {
            1
        } else {
            0
        }
}

/// The number of bands of a profile.
pub open spec fn bands(profile: Seq<u64>) -> int {
    sum_to(band_start(profile), profile.len())
}

/// The metrics of the columns of a page. The column separation is the
/// standard deviation of `ink`, a square root that is left to the caller.
#[derive(Clone, Copy, Debug, PartialEq, Eq)]
pub struct ColumnMetricsResult {
    /// The number of bands, and at least one for a valid raster.
    pub column_count: u32,
    /// The moments of the column inks.
    pub ink: Moments,
}

impl ColumnMetricsResult {
    /// These are the metrics of a profile of column inks.
    pub open spec fn describes(&self, profile: Seq<u64>) -> bool {
        &&& self.column_count == (if bands(profile) >= 1 {
            bands(profile)
        } else {
            1
        })
        &&& self.ink.describes(samples(profile), profile.len())
    }

    /// These are the metrics returned for an invalid raster.
    pub open spec fn is_neutral(&self) -> bool {
        &&& self.column_count == 0
        &&& self.ink.count == 0
        &&& self.ink.sum == 0
        &&& self.ink.sum_sq == 0
    }
}

/// The metrics of the columns of a page, from the ink of its columns.
pub fn columns_of_profile(cols: &Vec<u64>) -> (r: ColumnMetricsResult)
    requires
        cols.len() <= u32::MAX,
        forall|i: int| 0 <= i < cols.len() ==> cols[i] <= SAMPLE_LIMIT,
    ensures
        r.describes(cols@),
        r.column_count >= 1,
{
    let ink: Moments = Moments::of_profile(cols);
    let mut count: u32 = 0;
    let mut inside: bool = false;
    let mut x: usize = 0;
    while x < cols.len()
        invariant
            x <= cols.len() <= u32::MAX,
            forall|i: int| 0 <= i < cols.len() ==> cols[i] <= SAMPLE_LIMIT,
            ink.describes(samples(cols@), cols@.len()),
            ink.sum <= cols.len() * SAMPLE_LIMIT,
            count == sum_to(band_start(cols@), x as nat),
            count <= x,
            inside == (x > 0 && in_band(cols@, x - 1)),
        decreases cols.len() - x,
    {
        let v: u64 = cols[x];
        proof {
            assert(cols[x as int] <= 0x100_0000_0000);
            assert(ink.count * v <= 0xffff_ffff * SAMPLE_LIMIT) by (nonlinear_arith)
                requires
                    0 <= ink.count <= 0xffff_ffff,
                    0 <= v <= SAMPLE_LIMIT,
            ;
        }
        if ink.is_above(v, 7, 10) {
            if !inside {
                count = count + 1;
                inside = true;
            }
        } else {
            inside = false;
        }
        x = x + 1;
    }
    ColumnMetricsResult { column_count: if count >= 1 { count } else { 1 }, ink }
}

/// The column metrics of a raster given with its dimensions, and the neutral
/// metrics where the input is invalid.
pub fn column_metrics_js(data: &[u8], width: u32, height: u32) -> (r: ColumnMetricsResult)
    ensures
        valid_raster(data@.len() as int, width as int, height as int) ==> r.describes(
            column_profile(data@, width as int, height as int),
        ) && r.column_count >= 1,
        !valid_raster(data@.len() as int, width as int, height as int) ==> r.is_neutral(),
{
    match raster_len(data.len(), width, height) {
        Some(_) => {
            let cols: Vec<u64> = ink_columns(data, width, height);
            assert(cols@ =~= column_profile(data@, width as int, height as int));
            columns_of_profile(&cols)
        },
        None => ColumnMetricsResult { column_count: 0, ink: Moments::empty() },
    }
}

} // verus!
