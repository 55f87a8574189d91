//! A small raster-graphics core: a packed ARGB framebuffer, exact RGB/HSL
//! conversion, per-pixel filters and a clamp-to-edge convolution engine.

pub mod vram;
pub mod fraction;
pub mod color;
pub mod kernel;
pub mod convolution;
pub mod filters;
pub mod clock;
pub mod drawing;
