//! A grid ray caster on an integer lattice.
//!
//! The world is a rectangle of equally sized cells, each empty or a wall of
//! some kind. Positions and directions are pairs of integers, so every
//! crossing, cell and distance below is an exact value with a stated meaning.
//!
//! - `grid` and `world` hold the cells and the rectangle that they cover.
//! - `traversal` walks a ray from grid line to grid line and finds the first
//!   wall that it strikes; `axis` and `bound` state what follows for rays
//!   along an axis and for the number of crossings of any ray.
//! - `projection` sends one ray through every sample point of the view plane.
//! - `render` turns a struck wall into a column of the screen.
//! - `minimap` scales the world down to an overlay.

pub mod arith;
pub mod axis;
pub mod bound;
pub mod geometry;
pub mod grid;
pub mod minimap;
pub mod projection;
pub mod render;
pub mod traversal;
pub mod world;
