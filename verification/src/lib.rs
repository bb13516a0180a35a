//! A toroidal Conway's-Game-of-Life universe.
//!
//! The grid is a fixed-size, row-major sequence of two-valued cells whose
//! coordinates wrap modulo the dimensions. A generation is advanced into a
//! back buffer and committed by swapping the buffers. Editing operations
//! include single-cell writes, toggles, and toggling the interior cells of a
//! rasterized line segment. Rendering entry points compute, as plain values,
//! the square geometry and the RGBA pixel buffer that a host drawing surface
//! consumes.

pub mod cell;
pub mod line;
pub mod render;
pub mod universe;

pub use cell::Cell;
pub use render::{Rect, Rgba};
pub use universe::Universe;
