//! The minimap: the world scaled down to a small rectangle of the screen.

use vstd::prelude::*;
use vstd::arithmetic::div_mod::lemma_fundamental_div_mod;
use crate::arith::{abs, floor_div};
use crate::geometry::{Point, Vector};

verus! {

/// The scale and place of the minimap: a world of `world_width` by
/// `world_height` units is shown `width` by `height` pixels large, with its
/// upper left corner at `offset`.
#[derive(Clone, Copy, Debug, PartialEq, Eq, Structural)]
pub struct Minimap {
    pub world_width: i32,
    pub world_height: i32,
    pub width: i32,
    pub height: i32,
    pub offset: Point,
}

/// A length of `c` world units on an axis on which `world` units are shown
/// as `size` pixels: `c * size / world`, rounded down.
pub open spec fn scaled(c: int, size: int, world: int) -> int {
    (c * size) / world
}

/// Two scaled lengths differ by the scaled difference, up to rounding: the
/// error is less than one pixel.
pub proof fn lemma_scaled_difference(a: int, b: int, size: int, world: int)
    requires
        world > 0,
    ensures
        abs(world * (scaled(b, size, world) - scaled(a, size, world)) - size * (b - a)) < world,
        scaled(b - a, size, world) <= scaled(b, size, world) - scaled(a, size, world) <= scaled(
            b - a,
            size,
            world,
        ) + 1,
{
    lemma_fundamental_div_mod(a * size, world);
    lemma_fundamental_div_mod(b * size, world);
    lemma_fundamental_div_mod((b - a) * size, world);
    let fa = scaled(a, size, world);
    let fb = scaled(b, size, world);
    let fd = scaled(b - a, size, world);
    let ra = (a * size) % world;
    let rb = (b * size) % world;
    let rd = ((b - a) * size) % world;
    assert(world * (fb - fa) - size * (b - a) == ra - rb) by (nonlinear_arith)
        requires
            a * size == world * fa + ra,
            b * size == world * fb + rb,
    ;
    assert(world * (fb - fa - fd) == rd + ra - rb) by (nonlinear_arith)
        requires
            a * size == world * fa + ra,
            b * size == world * fb + rb,
            (b - a) * size == world * fd + rd,
    ;
    assert(0 <= fb - fa - fd <= 1) by (nonlinear_arith)
        requires
            world * (fb - fa - fd) == rd + ra - rb,
            0 <= ra < world,
            0 <= rb < world,
            0 <= rd < world,
    ;
}

impl Minimap {
    /// A minimap is valid if its world has a width and a height, and its
    /// own are not negative.
    pub open spec fn wf(&self) -> bool {
        &&& self.world_width >= 1
        &&& self.world_height >= 1
        &&& self.width >= 0
        &&& self.height >= 0
    }

    /// Where the minimap shows the point `p` of the world.
    pub open spec fn image_of(&self, p: Point) -> (int, int) {
        (
            scaled(p.x as int, self.width as int, self.world_width as int) + self.offset.x,
            scaled(p.y as int, self.height as int, self.world_height as int) + self.offset.y,
        )
    }

    /// How the minimap shows the displacement `v`: scaled as a point is,
    /// and not moved by the offset.
    pub open spec fn image_of_vector(&self, v: Vector) -> (int, int) {
        (
            scaled(v.x as int, self.width as int, self.world_width as int),
            scaled(v.y as int, self.height as int, self.world_height as int),
        )
    }

    /// The minimap neither turns nor shears: each coordinate of an image
    /// depends on the same coordinate of the point alone, and the images of
    /// two points lie apart by the points' displacement times the scale of
    /// that axis, with an error of less than one pixel.
    pub proof fn lemma_displacement(&self, p: Point, q: Point)
        requires
            self.wf(),
        ensures
            ({
                let (px, py) = self.image_of(p);
                let (qx, qy) = self.image_of(q);
                &&& abs(self.world_width * (qx - px) - self.width * (q.x - p.x)) < self.world_width
                &&& abs(self.world_height * (qy - py) - self.height * (q.y - p.y))
                    < self.world_height
                &&& p.x == q.x ==> px == qx
                &&& p.y == q.y ==> py == qy
            }),
    {
        lemma_scaled_difference(p.x as int, q.x as int, self.width as int, self.world_width as int);
        lemma_scaled_difference(
            p.y as int,
            q.y as int,
            self.height as int,
            self.world_height as int,
        );
    }

    /// The images of two points lie apart by the image of their
    /// displacement, or by one pixel more on either axis.
    pub proof fn lemma_displacement_image(&self, p: Point, q: Point, v: Vector)
        requires
            self.wf(),
            v.x == q.x - p.x,
            v.y == q.y - p.y,
        ensures
            ({
                let (px, py) = self.image_of(p);
                let (qx, qy) = self.image_of(q);
                let (vx, vy) = self.image_of_vector(v);
                &&& vx <= qx - px <= vx + 1
                &&& vy <= qy - py <= vy + 1
            }),
    {
        lemma_scaled_difference(p.x as int, q.x as int, self.width as int, self.world_width as int);
        lemma_scaled_difference(
            p.y as int,
            q.y as int,
            self.height as int,
            self.world_height as int,
        );
    }

    /// Whether the minimap is valid.
    pub fn is_valid(&self) -> (b: bool)
        ensures
            b == self.wf(),
    {
        self.world_width >= 1 && self.world_height >= 1 && self.width >= 0 && self.height >= 0
    }

    /// Where the minimap shows the point `p` of the world.
    pub fn to_minimap(&self, p: Point) -> (r: (i64, i64))
        requires
            self.wf(),
        ensures
            (r.0 as int, r.1 as int) == self.image_of(p),
    {
        let v = self.to_minimap_vector(Vector { x: p.x, y: p.y });
        (v.0 + self.offset.x as i64, v.1 + self.offset.y as i64)
    }

    /// How the minimap shows the displacement `v`.
    pub fn to_minimap_vector(&self, v: Vector) -> (r: (i64, i64))
        requires
            self.wf(),
        ensures
            (r.0 as int, r.1 as int) == self.image_of_vector(v),
            -0x4000_0000_0000_0000 <= r.0 <= 0x4000_0000_0000_0000,
            -0x4000_0000_0000_0000 <= r.1 <= 0x4000_0000_0000_0000,
    {
        let vx: i64 = v.x as i64;
        let vy: i64 = v.y as i64;
        let w: i64 = self.width as i64;
        let h: i64 = self.height as i64;
        assert(-0x4000_0000_0000_0000 <= vx * w <= 0x4000_0000_0000_0000 && -0x4000_0000_0000_0000
            <= vy * h <= 0x4000_0000_0000_0000) by (nonlinear_arith)
            requires
                -0x8000_0000 <= vx <= 0x8000_0000,
                -0x8000_0000 <= vy <= 0x8000_0000,
                0 <= w <= 0x8000_0000,
                0 <= h <= 0x8000_0000,
        ;
        let x: i64 = floor_div(vx * w, self.world_width as i64);
        let y: i64 = floor_div(vy * h, self.world_height as i64);
        assert(-0x4000_0000_0000_0000 <= x <= 0x4000_0000_0000_0000) by (nonlinear_arith)
            requires
                -0x4000_0000_0000_0000 <= vx * w <= 0x4000_0000_0000_0000,
                self.world_width >= 1,
                x == (vx * w) / (self.world_width as int),
        ;
        assert(-0x4000_0000_0000_0000 <= y <= 0x4000_0000_0000_0000) by (nonlinear_arith)
            requires
                -0x4000_0000_0000_0000 <= vy * h <= 0x4000_0000_0000_0000,
                self.world_height >= 1,
                y == (vy * h) / (self.world_height as int),
        ;
        (x, y)
    }
}

} // verus!
