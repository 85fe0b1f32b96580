//! Deterministic image-analysis primitives for scanned document pages.
//!
//! Every routine is a pure function of an 8-bit grayscale raster, stored
//! row-major in a byte slice, and of its dimensions. An invalid raster, one
//! with a dimension of zero or with a buffer shorter than `width * height`,
//! is never an error: each routine answers it with a neutral value.
//!
//! Quantities that are rational are returned exactly, as a [`Ratio`].
//! Quantities that involve a square root are returned through the exact
//! [`Moments`] they derive from.

pub mod baseline;
pub mod columns;
pub mod dhash;
pub mod layout;
pub mod median;
pub mod moments;
pub mod projection;
pub mod raster;
pub mod ratio;
pub mod skew;
pub mod sobel;
pub mod summation;
pub mod wide;

pub use baseline::{baseline_metrics_js, baseline_of_profile, BaselineMetricsResult};
pub use columns::{column_metrics_js, columns_of_profile, ColumnMetricsResult};
pub use dhash::{dhash_9x8, dhash_9x8_js, hash_hex};
pub use layout::{catalogue, content_box, detect_layout_elements_js, ContentBox, LayoutElementResult};
pub use median::{sorted_copy, twice_median_of};
pub use moments::Moments;
pub use projection::{
    ink_columns, ink_rows, projection_profile_x, projection_profile_x_js, projection_profile_y,
    projection_profile_y_js,
};
pub use raster::raster_len;
pub use ratio::Ratio;
pub use skew::{averaging_window, dominant_bucket, is_edge};
pub use sobel::{gradient_at, magnitude_of, nearest_root, sobel_magnitude, sobel_magnitude_js};
pub use wide::Wide;
