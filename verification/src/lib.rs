//! Batch conversion of raster image trees: each image is resized, classified
//! as effectively-monochrome or color, and re-encoded accordingly, with
//! per-item failures collected instead of aborting the batch.
//!
//! The crate is organised leaf-first: pixel-level saturation/value math,
//! the color classifier, the conversion decision engine, the planner that
//! maps input paths to output paths, and the conversion pipeline around
//! the image codec.

pub mod classify;
pub mod codec;
pub mod decide;
pub mod pixel;
pub mod plan;
