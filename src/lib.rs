//! Verified core of a small ray tracer: the pixel grid and its PPM and PNG
//! encodings, the stable ordering of intersections and the choice of the
//! hit, the index structure of transform matrices, the text layout that
//! matrices are written in, and string helpers.
//!
//! Geometry and shading run on floating point and are kept outside this crate.

pub mod text;
pub mod canvas;
pub mod ppm;
pub mod matrix;
pub mod order;
pub mod png_image;
pub mod schedule;
