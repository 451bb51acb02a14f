//! Tone and palette reduction of RGB rasters: binary thresholding, nearest
//! colour in a fixed palette of eight, random dithering and ordered
//! dithering against a Bayer matrix.
//!
//! All arithmetic is exact. Brightness, thresholds, random draws and matrix
//! levels are fractions that are compared by cross-multiplication, so no
//! result depends on rounding.

pub mod bayer;
pub mod color;
pub mod palette;
pub mod pipeline;
pub mod quantize;
pub mod random;
pub mod raster;
pub mod threshold;
pub mod tone;

pub use bayer::{generate_bayer_matrix, BayerMatrix, MAX_ORDER};
pub use color::Color;
pub use palette::{color_distance, find_closest_color, palette, MAX_DISTANCE};
pub use pipeline::{
    apply_operation, parse_operation, process_image, Operation, PIPELINE_BAYER_ORDER,
};
pub use quantize::{apply_bayer, apply_dithering, apply_monochrome, apply_palette};
pub use random::{draw_from_bits, DRAW_RANGE};
pub use raster::Raster;
pub use threshold::Threshold;
pub use tone::{bayer_pixel, dither_pixel, threshold_pixel};
