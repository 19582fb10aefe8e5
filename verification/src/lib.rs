//! A software rasteriser in exact integer arithmetic.
//!
//! The crate renders triangles into a depth-buffered pixel buffer: matrix and
//! vector algebra over the integers, triangle geometry on a sub-pixel grid, a
//! colour and depth buffer, and a camera that projects a scene onto it.
//! Real quantities are carried as integers: positions on the screen count
//! sub-pixel units, transforms are integer matrices acting on homogeneous
//! coordinates, and a quotient is taken only where a position is needed.
//!
//! What the integers cost: a camera looks in exact directions only (see
//! [`camera::Camera`]), a frame is at most [`fixed::FRAME_LIMIT`] pixels wide
//! and high, and coordinates on the screen stay within
//! [`fixed::COORD_LIMIT`].
//!
//! The modules whose names end in `_laws` hold no code that runs: they state
//! and prove what holds of the functions of the module they are named after.

pub mod camera;
pub mod camera_laws;
pub mod determinant;
pub mod determinant_laws;
pub mod fixed;
pub mod output_buffer;
pub mod output_buffer_laws;
pub mod position;
pub mod projection;
pub mod raster;
pub mod raster_laws;
pub mod raster_order_laws;
pub mod render;
pub mod render_object;
pub mod shader;
pub mod texture;
pub mod triangle;
pub mod triangle_laws;
pub mod triangle_resources;
pub mod vector;
