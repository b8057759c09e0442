//! A small software rasterizer: generic scalar/vector math, a Bresenham-style
//! line rasterizer, two triangle fill algorithms (scanline edge interpolation
//! and barycentric bounding-box test), and a mesh projection driver, all
//! drawing into an in-memory RGBA pixel surface.

pub mod canvas;
pub mod geometry;
pub mod line;
pub mod render;
pub mod triangle;
