//! Rasterization of points, lines, triangles, rectangles, circles and regular
//! pentagons into RGBA images, with integer-only scan conversion: Bresenham's
//! line algorithm, the midpoint circle algorithm, polygons drawn edge by edge,
//! and an allocator that never hands out the same colour twice.

pub mod canvas;
pub mod circle;
pub mod color;
pub mod isqrt;
pub mod line;
pub mod pentagon;
pub mod sampling;
pub mod shapes;
