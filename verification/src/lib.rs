//! Color quantization by k-means clustering, on integer arithmetic.
//!
//! An image is a row-major sequence of [`Color`]s, one for each pixel.
//! Clustering starts from `k` buckets seeded with sampled pixels, refines them
//! a fixed number of times, and renders either the image recolored with the
//! nearest bucket colors or a strip with one swatch per bucket. Channel
//! intensities are 16-bit fixed-point numbers and every sum is exact, so what
//! a refinement pass returns depends on the image and the centroids alone,
//! not on how the work was shared out.

pub mod accumulate;
pub mod assign;
pub mod bucket;
pub mod canvas;
pub mod cluster;
pub mod color;
pub mod error;
pub mod laws;
pub mod metric;
pub mod natural;
pub mod prompts;
pub mod render;

pub use bucket::{Bucket, Centroid, Tally};
pub use canvas::{Canvas, Picture};
pub use color::Color;
pub use error::Error;
pub use metric::Metric;
pub use prompts::{Mode, Options};
