//! A CPU rasterization pipeline in the shape of WebGPU's rendering operations.
//!
//! The verified part covers everything that is exact arithmetic on indices and
//! bytes: vertex formats and the interleaved vertex layout of a mesh, vertex
//! fetch from an interleaved buffer, index resolution, triangle assembly with
//! whole-triangle clip rejection, triangle facing and culling, pixel bounds,
//! the reverse-Z depth test and the framebuffer writes, texel fetch, bind
//! groups, and the integer line walk used for wireframes.
//!
//! Floating-point values cross this library as their IEEE-754 bit patterns
//! (`f32::to_bits`); the caller does the floating-point arithmetic itself.

pub mod bind_group;
pub mod error;
pub mod format;
pub mod line;
pub mod mesh;
pub mod raster;
pub mod seq_lemmas;
pub mod target;
pub mod vertex;
