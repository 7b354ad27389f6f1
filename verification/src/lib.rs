//! Rasterization of points, line segments, rectangles, triangles and circles
//! onto any target that accepts pixel writes.
//!
//! Every shape states, as a sequence of integer coordinates, exactly which
//! pixels it writes and in which order; `draw` is proved against that
//! sequence.

pub mod canvas;
pub mod circle;
pub mod color;
pub mod image;
pub mod line;
pub mod point;
pub mod rectangle;
pub mod rounding;
pub mod sampling;
pub mod triangle;

pub use canvas::{Displayable, Drawable, Pixel, Recorder};
pub use circle::Circle;
pub use image::Canvas;
pub use line::Line;
pub use point::Point;
pub use rectangle::Rectangle;
pub use sampling::InvalidRange;
pub use triangle::Triangle;
