//! Baseline metrics: the text lines of a page, found as peaks of the ink of
//! its rows, and the regularity of their spacing.
//!
//! A row is a peak where its ink exceeds `mean + 0.6 * deviation` of the row
//! inks and the ink of both neighbouring rows. Positions and spacings are
//! divided by `height - 1`; sorting the spacings and taking medians keeps
//! them rational, so they are returned exactly.

use vstd::prelude::*;
use crate::median::{lemma_twice_median_bounds, twice_median, twice_median_of};
use crate::moments::{above, samples, squares, Moments, SAMPLE_LIMIT};
use crate::projection::{ink_rows, row_ink};
use crate::raster::{raster_len, valid_raster};
use crate::ratio::Ratio;
use crate::summation::sum_to;

verus! {

/// The ink of each row of a raster.
pub open spec fn ink_profile(data: Seq<u8>, width: int, height: int) -> Seq<u64> {
    Seq::new(height as nat, |y: int| row_ink(data, width, y) as u64)
}

/// `v` exceeds the peak threshold of the profile: its mean plus six tenths
/// of its standard deviation.
pub open spec fn over_threshold(profile: Seq<u64>, v: int) -> bool {
    above(
        v,
        profile.len() as int,
        sum_to(samples(profile), profile.len()),
        sum_to(squares(samples(profile)), profile.len()),
        3,
        5,
    )
}

/// Row `y` is a peak: it is neither the first nor the last row, its ink
/// exceeds the threshold, and it strictly exceeds the ink of both
/// neighbours.
pub open spec fn is_peak(profile: Seq<u64>, y: int) -> bool {
    &&& 0 < y < profile.len() - 1
    &&& over_threshold(profile, profile[y] as int)
    &&& profile[y] > profile[y - 1]
    &&& profile[y] > profile[y + 1]
}

/// The peaks among the first `n` rows, in ascending order.
pub open spec fn peaks_below(profile: Seq<u64>, n: nat) -> Seq<u64>
    decreases n,
{
    if n == 0 {
        Seq::empty()
    } else if is_peak(profile, n - 1) {
        peaks_below(profile, (n - 1) as nat).push((n - 1) as u64)
    } else {
        peaks_below(profile, (n - 1) as nat)
    }
}

/// The peaks of a profile, in ascending order.
pub open spec fn peaks(profile: Seq<u64>) -> Seq<u64> {
    peaks_below(profile, profile.len())
}

/// Twice the height of a peak above the mean of its two neighbours, and
/// zero for a row that is no peak.
pub open spec fn prominence(profile: Seq<u64>) -> spec_fn(int) -> int {
    |y: int|
        if is_peak(profile, y) {
            2 * profile[y] - profile[y - 1] - profile[y + 1]
        } else {
            0
        }
}

/// The sum of the prominences of all peaks.
pub open spec fn contrast(profile: Seq<u64>) -> int {
    sum_to(prominence(profile), profile.len())
}

/// The distances between consecutive peaks.
pub open spec fn gaps(peaks: Seq<u64>) -> Seq<u64> {
    Seq::new((peaks.len() - 1) as nat, |i: int| (peaks[i + 1] - peaks[i]) as u64)
}

/// The absolute deviations of the gaps from their median, doubled: twice
/// the median is `spacing`.
pub open spec fn deviations(gaps: Seq<u64>, spacing: int) -> Seq<u64> {
    Seq::new(
        gaps.len(),
        |i: int|
            if 2 * gaps[i] >= spacing {
                (2 * gaps[i] - spacing) as u64
            } else {
                (spacing - 2 * gaps[i]) as u64
            },
    )
}

/// The peak positions, reduced modulo `max(span, 1)` and then modulo the
/// median gap, doubled: twice the median gap is `spacing`.
pub open spec fn residues(peaks: Seq<u64>, span: int, spacing: int) -> Seq<u64> {
    Seq::new(
        peaks.len(),
        |i: int| ((2 * (peaks[i] as int % (if span > 1 { span } else { 1 }))) % spacing) as u64,
    )
}

/// The metrics of the text lines of a page. With `span = height - 1`:
///
/// - the line consistency is `1 - deviation / (2 * mean)` of `ink`, kept
///   within `[0, 1]`, and zero where the mean is zero;
/// - the peak sharpness is
///   `peak_contrast / (2 * text_line_count * deviation)`, and zero where
///   there is no peak;
/// - the confidence is `0.4 * spacing_score + 0.35 * s + 0.25 *
///   peak_count_score`, where `s` is a third of the peak sharpness, kept
///   within `[0, 1]`.
///
/// The deviation is a square root, so these three are left to the caller;
/// every other metric is exact.
#[derive(Clone, Debug, PartialEq, Eq)]
pub struct BaselineMetricsResult {
    /// The number of peaks.
    pub text_line_count: u32,
    /// The median gap between consecutive peaks, over `span`.
    pub spacing_norm: Ratio,
    /// The median absolute deviation of the gaps from their median, over
    /// `span`.
    pub spacing_mad_norm: Ratio,
    /// The median of the peak positions over `span`, each reduced modulo
    /// `spacing_norm`.
    pub offset_norm: Ratio,
    /// The skew of the lines, which this analysis does not estimate: zero.
    pub angle_deg: Ratio,
    /// `1 - spacing_mad_norm / spacing_norm`, kept within `[0, 1]`.
    pub spacing_score: Ratio,
    /// An eighth of the number of peaks beyond two, kept within `[0, 1]`.
    pub peak_count_score: Ratio,
    /// The sum over the peaks of twice the height of the peak above the mean
    /// of its two neighbours.
    pub peak_contrast: u128,
    /// The moments of the row inks.
    pub ink: Moments,
    /// The peak rows over `span`, in ascending order.
    pub peaks_y: Vec<Ratio>,
}

impl BaselineMetricsResult {
    /// The spacing metrics are those of the peaks `p` of a profile of
    /// `span + 1` rows.
    pub open spec fn spacing_of(&self, p: Seq<u64>, span: int) -> bool {
        if p.len() >= 2 {
            let spacing = twice_median(gaps(p));
            let mad = twice_median(deviations(gaps(p), spacing));
            &&& self.spacing_norm.is_fraction(spacing, 2 * span)
            &&& self.spacing_mad_norm.is_fraction(mad, 4 * span)
            &&& if spacing > 0 {
                &&& self.offset_norm.is_fraction(twice_median(residues(p, span, spacing)), 4 * span)
                &&& self.spacing_score.is_fraction(
                    if 2 * spacing >= mad {
                        2 * spacing - mad
                    } else {
                        0
                    },
                    2 * spacing,
                )
            } else {
                &&& self.offset_norm.is_fraction(0, 1)
                &&& self.spacing_score.is_fraction(0, 1)
            }
        } else {
            &&& self.spacing_norm.is_fraction(0, 1)
            &&& self.spacing_mad_norm.is_fraction(0, 1)
            &&& self.offset_norm.is_fraction(0, 1)
            &&& self.spacing_score.is_fraction(0, 1)
        }
    }

    /// These are the metrics of a profile of row inks.
    pub open spec fn describes(&self, profile: Seq<u64>) -> bool {
        let p = peaks(profile);
        let span = profile.len() - 1;
        &&& self.text_line_count == p.len()
        &&& self.peaks_y@.len() == p.len()
        &&& forall|i: int| 0 <= i < p.len() ==> (#[trigger] self.peaks_y@[i]).is_fraction(p[i] as int, span)
        &&& self.spacing_of(p, span)
        &&& self.angle_deg.is_fraction(0, 1)
        &&& self.peak_count_score.is_fraction(
            if p.len() <= 2 {
                0
            } else if p.len() >= 10 {
                8
            } else {
                p.len() - 2
            },
            8,
        )
        &&& self.peak_contrast == contrast(profile)
        &&& self.ink.describes(samples(profile), profile.len())
    }

    /// These are the metrics returned for an invalid raster: no peaks, and
    /// zero throughout.
    pub open spec fn is_neutral(&self) -> bool {
        &&& self.text_line_count == 0
        &&& self.peaks_y@.len() == 0
        &&& self.spacing_norm.is_fraction(0, 1)
        &&& self.spacing_mad_norm.is_fraction(0, 1)
        &&& self.offset_norm.is_fraction(0, 1)
        &&& self.angle_deg.is_fraction(0, 1)
        &&& self.spacing_score.is_fraction(0, 1)
        &&& self.peak_count_score.is_fraction(0, 8)
        &&& self.peak_contrast == 0
        &&& self.ink.count == 0
        &&& self.ink.sum == 0
        &&& self.ink.sum_sq == 0
    }
}

/// The peaks below `n` are rows below `n`, below the last row, in strictly
/// ascending order.
pub proof fn lemma_peaks_ascend(profile: Seq<u64>, n: nat)
    requires
        n <= profile.len() <= u64::MAX,
    ensures
        peaks_below(profile, n).len() <= n,
        forall|i: int|
            0 <= i < peaks_below(profile, n).len() ==> 0 < #[trigger] peaks_below(profile, n)[i]
                < n && peaks_below(profile, n)[i] < profile.len() - 1,
        forall|i: int, j: int|
            0 <= i < j < peaks_below(profile, n).len() ==> #[trigger] peaks_below(profile, n)[i]
                < #[trigger] peaks_below(profile, n)[j],
    decreases n,
{
    if n > 0 {
        lemma_peaks_ascend(profile, (n - 1) as nat);
    }
}

/// Where no row exceeds the peak threshold, the profile has no peak.
pub proof fn lemma_no_peak_without_excess(profile: Seq<u64>, n: nat)
    requires
        n <= profile.len(),
        forall|y: int| 0 <= y < profile.len() ==> !over_threshold(profile, #[trigger] profile[y] as int),
    ensures
        peaks_below(profile, n).len() == 0,
    decreases n,
{
    if n > 0 {
        lemma_no_peak_without_excess(profile, (n - 1) as nat);
    }
}

/// Where no row exceeds the peak threshold, no text line is counted and the
/// spacing, its deviation and the offset are zero.
pub proof fn lemma_flat_profile_is_blank(r: BaselineMetricsResult, profile: Seq<u64>)
    requires
        r.describes(profile),
        forall|y: int| 0 <= y < profile.len() ==> !over_threshold(profile, #[trigger] profile[y] as int),
    ensures
        r.text_line_count == 0,
        r.spacing_norm.num == 0,
        r.spacing_mad_norm.num == 0,
        r.offset_norm.num == 0,
        r.peaks_y@.len() == 0,
{
    lemma_no_peak_without_excess(profile, profile.len());
}

/// The peaks of a profile and the sum of their prominences.
fn find_peaks(rows: &Vec<u64>, ink: &Moments) -> (found: (Vec<u64>, u128))
    requires
        rows.len() <= u32::MAX,
        forall|i: int| 0 <= i < rows.len() ==> rows[i] <= SAMPLE_LIMIT,
        ink.describes(samples(rows@), rows@.len()),
        ink.sum <= rows.len() * SAMPLE_LIMIT,
    ensures
        found.0@ == peaks(rows@),
        found.1 == contrast(rows@),
{
    let n: usize = rows.len();
    let mut found: Vec<u64> = Vec::new();
    let mut total: u128 = 0;
    if n < 3 {
        proof {
            reveal_with_fuel(peaks_below, 3);
            reveal_with_fuel(sum_to, 3);
        }
        return (found, total);
    }
    let mut y: usize = 1;
    proof {
        reveal_with_fuel(peaks_below, 2);
        reveal_with_fuel(sum_to, 2);
    }
    while y < n - 1
        invariant
            1 <= y <= n - 1,
            n == rows.len(),
            n <= u32::MAX,
            forall|i: int| 0 <= i < rows.len() ==> rows[i] <= SAMPLE_LIMIT,
            ink.describes(samples(rows@), rows@.len()),
            ink.sum <= rows.len() * SAMPLE_LIMIT,
            found@ == peaks_below(rows@, y as nat),
            total == sum_to(prominence(rows@), y as nat),
            total <= y * 0x200_0000_0000,
        decreases n - y,
    {
        let v: u64 = rows[y];
        proof {
            assert(rows[y as int] <= 0x100_0000_0000);
            assert(ink.count * v <= 0xffff_ffff * SAMPLE_LIMIT) by (nonlinear_arith)
                requires
                    0 <= ink.count <= 0xffff_ffff,
                    0 <= v <= SAMPLE_LIMIT,
            ;
        }
        if ink.is_above(v, 3, 5) && v > rows[y - 1] && v > rows[y + 1] {
            found.push(y as u64);
            total = total + (2 * (v as u128) - rows[y - 1] as u128 - rows[y + 1] as u128);
        }
        y = y + 1;
    }
    (found, total)
}

/// The distances between consecutive elements of an ascending sequence.
fn gaps_of(positions: &Vec<u64>) -> (out: Vec<u64>)
    requires
        positions.len() >= 1,
        forall|i: int, j: int|
            0 <= i < j < positions.len() ==> #[trigger] positions[i] < #[trigger] positions[j],
    ensures
        out@ == gaps(positions@),
{
    let mut out: Vec<u64> = Vec::new();
    let mut i: usize = 0;
    while i + 1 < positions.len()
        invariant
            i + 1 <= positions.len(),
            forall|a: int, b: int|
                0 <= a < b < positions.len() ==> #[trigger] positions[a] < #[trigger] positions[b],
            out.len() == i,
            forall|k: int| 0 <= k < i ==> #[trigger] out[k] == positions[k + 1] - positions[k],
        decreases positions.len() - i,
    {
        out.push(positions[i + 1] - positions[i]);
        i = i + 1;
    }
    assert(out@ =~= gaps(positions@));
    out
}

/// The doubled absolute deviations of the gaps from half of `spacing`.
fn deviations_of(distances: &Vec<u64>, spacing: u64) -> (out: Vec<u64>)
    requires
        spacing <= u32::MAX * 2,
        forall|i: int| 0 <= i < distances.len() ==> #[trigger] distances[i] <= u32::MAX,
    ensures
        out@ == deviations(distances@, spacing as int),
        forall|i: int| 0 <= i < out.len() ==> #[trigger] out[i] <= u32::MAX * 2,
{
    let mut out: Vec<u64> = Vec::new();
    let mut i: usize = 0;
    while i < distances.len()
        invariant
            i <= distances.len(),
            spacing <= u32::MAX * 2,
            forall|k: int| 0 <= k < distances.len() ==> #[trigger] distances[k] <= u32::MAX,
            out.len() == i,
            forall|k: int|
                0 <= k < i ==> #[trigger] out[k] == deviations(distances@, spacing as int)[k],
            forall|k: int| 0 <= k < i ==> #[trigger] out[k] <= u32::MAX * 2,
        decreases distances.len() - i,
    {
        let doubled: u64 = 2 * distances[i];
        if doubled >= spacing {
            out.push(doubled - spacing);
        } else {
            out.push(spacing - doubled);
        }
        i = i + 1;
    }
    assert(out@ =~= deviations(distances@, spacing as int));
    out
}

/// The doubled positions, reduced modulo `max(span, 1)` and then modulo
/// `spacing`.
fn residues_of(positions: &Vec<u64>, span: u64, spacing: u64) -> (out: Vec<u64>)
    requires
        spacing > 0,
        span <= u32::MAX,
    ensures
        out@ == residues(positions@, span as int, spacing as int),
        forall|i: int| 0 <= i < out.len() ==> #[trigger] out[i] < spacing,
{
    let modulus: u64 = if span > 1 { span } else { 1 };
    let mut out: Vec<u64> = Vec::new();
    let mut i: usize = 0;
    while i < positions.len()
        invariant
            i <= positions.len(),
            spacing > 0,
            0 < modulus <= u32::MAX,
            modulus == (if span > 1 { span } else { 1 }),
            out.len() == i,
            forall|k: int|
                0 <= k < i ==> #[trigger] out[k] == residues(
                    positions@,
                    span as int,
                    spacing as int,
                )[k],
            forall|k: int| 0 <= k < i ==> #[trigger] out[k] < spacing,
        decreases positions.len() - i,
    {
        out.push((2 * (positions[i] % modulus)) % spacing);
        i = i + 1;
    }
    assert(out@ =~= residues(positions@, span as int, spacing as int));
    out
}

/// The peak rows over `span`.
fn normalized(positions: &Vec<u64>, span: u64) -> (out: Vec<Ratio>)
    requires
        positions.len() > 0 ==> span > 0,
    ensures
        out@.len() == positions@.len(),
        forall|i: int|
            0 <= i < positions.len() ==> (#[trigger] out@[i]).is_fraction(
                positions[i] as int,
                span as int,
            ),
{
    let mut out: Vec<Ratio> = Vec::new();
    let mut i: usize = 0;
    while i < positions.len()
        invariant
            i <= positions.len(),
            positions.len() > 0 ==> span > 0,
            out.len() == i,
            forall|k: int| 0 <= k < i ==> (#[trigger] out@[k]).is_fraction(positions[k] as int, span as int),
        decreases positions.len() - i,
    {
        out.push(Ratio::new(positions[i], span));
        i = i + 1;
    }
    out
}

/// The metrics of the text lines of a page, from the ink of its rows.
pub fn baseline_of_profile(rows: &Vec<u64>) -> (r: BaselineMetricsResult)
    requires
        rows.len() <= u32::MAX,
        forall|i: int| 0 <= i < rows.len() ==> rows[i] <= SAMPLE_LIMIT,
    ensures
        r.describes(rows@),
{
    let ink: Moments = Moments::of_profile(rows);
    let (found, peak_contrast) = find_peaks(rows, &ink);
    proof {
        lemma_peaks_ascend(rows@, rows@.len());
        if found.len() > 0 {
            assert(0 < peaks_below(rows@, rows@.len())[0] < rows.len() - 1);
        }
    }
    let count: usize = found.len();
    let span: u64 = if rows.len() > 0 { (rows.len() - 1) as u64 } else { 0 };
    let mut spacing_norm: Ratio = Ratio::zero();
    let mut spacing_mad_norm: Ratio = Ratio::zero();
    let mut offset_norm: Ratio = Ratio::zero();
    let mut spacing_score: Ratio = Ratio::zero();
    if count >= 2 {
        let distances: Vec<u64> = gaps_of(&found);
        proof {
            lemma_twice_median_bounds(distances@, 0, u32::MAX as int);
        }
        let spacing: u64 = twice_median_of(&distances) as u64;
        let spread: Vec<u64> = deviations_of(&distances, spacing);
        proof {
            lemma_twice_median_bounds(spread@, 0, u32::MAX * 2);
        }
        let mad: u64 = twice_median_of(&spread) as u64;
        spacing_norm = Ratio::new(spacing, 2 * span);
        spacing_mad_norm = Ratio::new(mad, 4 * span);
        if spacing > 0 {
            let offsets: Vec<u64> = residues_of(&found, span, spacing);
            proof {
                lemma_twice_median_bounds(offsets@, 0, spacing as int);
            }
            let offset: u64 = twice_median_of(&offsets) as u64;
            offset_norm = Ratio::new(offset, 4 * span);
            let regular: u64 = if 2 * spacing >= mad { 2 * spacing - mad } else { 0 };
            spacing_score = Ratio::new(regular, 2 * spacing);
        }
    }
    let beyond: u64 = if count <= 2 { 0 } else if count >= 10 { 8 } else { (count - 2) as u64 };
    BaselineMetricsResult {
        text_line_count: count as u32,
        spacing_norm,
        spacing_mad_norm,
        offset_norm,
        angle_deg: Ratio::zero(),
        spacing_score,
        peak_count_score: Ratio::new(beyond, 8),
        peak_contrast,
        ink,
        peaks_y: normalized(&found, span),
    }
}

/// The baseline metrics of a raster given with its dimensions, and the
/// neutral metrics where the input is invalid.
pub fn baseline_metrics_js(data: &[u8], width: u32, height: u32) -> (r: BaselineMetricsResult)
    ensures
        valid_raster(data@.len() as int, width as int, height as int) ==> r.describes(
            ink_profile(data@, width as int, height as int),
        ),
        !valid_raster(data@.len() as int, width as int, height as int) ==> r.is_neutral(),
{
    match raster_len(data.len(), width, height) {
        Some(_) => {
            let rows: Vec<u64> = ink_rows(data, width, height);
            assert(rows@ =~= ink_profile(data@, width as int, height as int));
            baseline_of_profile(&rows)
        },
        None => BaselineMetricsResult {
            text_line_count: 0,
            spacing_norm: Ratio::zero(),
            spacing_mad_norm: Ratio::zero(),
            offset_norm: Ratio::zero(),
            angle_deg: Ratio::zero(),
            spacing_score: Ratio::zero(),
            peak_count_score: Ratio::new(0, 8),
            peak_contrast: 0,
            ink: Moments::empty(),
            peaks_y: Vec::new(),
        },
    }
}

} // verus!
