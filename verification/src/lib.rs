//! A software renderer for a browser canvas: a procedural checkerboard
//! texture, a perspective-floor frame layout, a heading that turns with the
//! arrow keys, and packing of RGBA pixels into little-endian bytes.

pub mod framebuffer;
pub mod keys;
pub mod pattern;
pub mod pixels;
pub mod renderer;
pub mod texture;

