//! A small software rasterizer: a pixel buffer, Bresenham lines, filled
//! triangles with back-face culling, and a binary `P6` raster dump.
//!
//! Every drawing operation is specified by the set of positions it covers
//! (`line::line_pixels`, `geometry::triangle_pixels`) and by
//! `ImageView::paint`, which writes a colour at the covered positions that lie
//! inside the image and ignores the others.

pub mod decimal;
pub mod geometry;
pub mod image;
pub mod laws;
pub mod line;
pub mod noise;
pub mod obj;
pub mod pixel;

pub use geometry::{Position, Triangle};
pub use image::{Image, ImageError, ImageView};
pub use pixel::Pixel;
