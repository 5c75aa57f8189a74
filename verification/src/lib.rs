//! Barycentric colour decomposition and error-diffusion dithering for
//! small fixed palettes, in exact integer arithmetic.
//!
//! A colour is a point with three integer channels. A decomposer writes such
//! a point as a weighted mixture of palette points; the weights are exact
//! rationals that share one denominator. The diffusion engine walks an image
//! and hands each pixel's residual on to its neighbours.

pub mod barycentric;
pub mod decompose;
pub mod decomposer_bruteforce;
pub mod dither;
pub mod helpers;
pub mod noise;
