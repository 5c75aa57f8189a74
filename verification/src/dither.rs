//! Error-diffusion dithering: the kernels and the engine that applies them.

pub mod diffusion_matrix;
pub mod canvas;
pub mod diffuse;
pub mod decomposing;
