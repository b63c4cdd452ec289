//! Points and directions of the lattice, and the two orientations of a grid line.

use vstd::prelude::*;

verus! {

/// A position in the world, in world units.
#[derive(Clone, Copy, Debug, PartialEq, Eq, Structural)]
pub struct Point {
    pub x: i32,
    pub y: i32,
}

/// A displacement or a direction. Of a direction only the signs and the ratio
/// of the two components matter, not its length.
#[derive(Clone, Copy, Debug, PartialEq, Eq, Structural)]
pub struct Vector {
    pub x: i32,
    pub y: i32,
}

/// The orientation of the grid line that a ray crosses: `X` for a vertical
/// line, between two columns, `Y` for a horizontal line, between two rows.
#[derive(Clone, Copy, Debug, PartialEq, Eq, Structural)]
pub enum Side {
    X,
    Y,
}

/// The dot product of `(ax, ay)` and `(bx, by)`.
pub open spec fn dot(ax: int, ay: int, bx: int, by: int) -> int {
    ax * bx + ay * by
}

/// The cross product of `(ax, ay)` and `(bx, by)`: twice the signed area of
/// the triangle that they span.
pub open spec fn cross(ax: int, ay: int, bx: int, by: int) -> int {
    ax * by - ay * bx
}

/// How far `to` lies beyond `from` along `dir`: the distance from `from` to
/// `to` projected on the ray, times the length of `dir`.
pub open spec fn progress(from: Point, to: Point, dir: Vector) -> int {
    dot(to.x - from.x, to.y - from.y, dir.x as int, dir.y as int)
}

} // verus!
