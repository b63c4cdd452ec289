//! The viewer, the screen, and the rays that the viewer sends out: one for
//! each screen column, through a point of the view plane in front of the viewer.

use vstd::prelude::*;
use vstd::arithmetic::div_mod::{lemma_fundamental_div_mod, lemma_fundamental_div_mod_converse};
use crate::geometry::{dot, Point, Vector};

verus! {

/// The largest magnitude of a coordinate of the viewer's position.
pub const POSITION_LIMIT: i32 = 0x2000_0000;

/// The largest magnitude of a component of the facing vector.
pub const FACING_LIMIT: i32 = 0x4000;

/// The largest number of rays on either side of the centre ray.
pub const HALF_COLUMNS_LIMIT: i32 = 2048;

/// The largest distance and half width of the view plane, in lengths of the
/// facing vector.
pub const PLANE_LIMIT: i32 = 16;

/// The largest width and height of the screen.
pub const SCREEN_LIMIT: i32 = 0x8000;

/// The largest wall scale.
pub const WALL_SCALE_LIMIT: i32 = 0x4000_0000;

/// Where the viewer stands and where the viewer looks. Only the direction of
/// `facing` matters to the rays; its length is the unit in which the view
/// plane is measured.
#[derive(Clone, Copy, Debug, PartialEq, Eq, Structural)]
pub struct Pose {
    pub position: Point,
    pub facing: Vector,
}

/// The screen and the field of view.
#[derive(Clone, Copy, Debug, PartialEq, Eq, Structural)]
pub struct Camera {
    /// The screen's width in pixels.
    pub screen_width: i32,
    /// The screen's height in pixels.
    pub screen_height: i32,
    /// The number of sample points on either side of the view plane's centre.
    pub half_columns: i32,
    /// A ray is sent through every `step`-th sample point.
    pub step: i32,
    /// The distance of the view plane from the viewer, in lengths of the
    /// facing vector.
    pub plane_distance: i32,
    /// Half the width of the view plane, in lengths of the facing vector.
    pub plane_half_width: i32,
    /// The height on screen, in pixels, of a wall at distance `screen_height`.
    pub wall_scale: i32,
}

/// A ray: it starts at `origin` and runs along `direction`. `offset` is
/// the sample point of the view plane that it passes through, counted from
/// the centre of the plane.
#[derive(Clone, Copy, Debug, PartialEq, Eq, Structural)]
pub struct Ray {
    pub origin: Point,
    pub direction: Vector,
    pub offset: i32,
}

/// The direction of the view plane: `facing` turned by a quarter, to the
/// side on which its `y` is not negative.
pub open spec fn view_plane(facing: Vector) -> (int, int) {
    if facing.x >= 0 {
        (-facing.y, facing.x as int)
    } else {
        (facing.y as int, -facing.x)
    }
}

impl Pose {
    /// A pose is valid if it faces somewhere and its numbers are within the limits.
    pub open spec fn wf(&self) -> bool {
        &&& self.facing.x != 0 || self.facing.y != 0
        &&& -FACING_LIMIT <= self.facing.x <= FACING_LIMIT
        &&& -FACING_LIMIT <= self.facing.y <= FACING_LIMIT
        &&& -POSITION_LIMIT <= self.position.x <= POSITION_LIMIT
        &&& -POSITION_LIMIT <= self.position.y <= POSITION_LIMIT
    }

    /// Whether the pose is valid.
    pub fn is_valid(&self) -> (b: bool)
        ensures
            b == self.wf(),
    {
        (self.facing.x != 0 || self.facing.y != 0) && -FACING_LIMIT <= self.facing.x
            && self.facing.x <= FACING_LIMIT && -FACING_LIMIT <= self.facing.y && self.facing.y
            <= FACING_LIMIT && -POSITION_LIMIT <= self.position.x && self.position.x
            <= POSITION_LIMIT && -POSITION_LIMIT <= self.position.y && self.position.y
            <= POSITION_LIMIT
    }
}

impl Camera {
    /// A camera is valid if its numbers are positive and within the limits.
    pub open spec fn wf(&self) -> bool {
        &&& 1 <= self.screen_width <= SCREEN_LIMIT
        &&& 1 <= self.screen_height <= SCREEN_LIMIT
        &&& 1 <= self.half_columns <= HALF_COLUMNS_LIMIT
        &&& 1 <= self.step <= 2 * self.half_columns
        &&& 1 <= self.plane_distance <= PLANE_LIMIT
        &&& 1 <= self.plane_half_width <= PLANE_LIMIT
        &&& 0 <= self.wall_scale <= WALL_SCALE_LIMIT
    }

    /// The number of rays of one frame.
    pub open spec fn column_count(&self) -> int {
        (2 * self.half_columns) / (self.step as int) + 1
    }

    /// The sample point of the `k`-th ray.
    pub open spec fn offset_of(&self, k: int) -> int {
        k * self.step - self.half_columns
    }

    /// The direction from the viewer to sample point `offset` of the view
    /// plane, which lies `plane_distance` lengths of `facing` in front of
    /// the viewer; its sample points are `plane_half_width / half_columns`
    /// lengths apart. The vector is scaled by `half_columns`, to keep its
    /// components whole.
    pub open spec fn direction_to(&self, facing: Vector, offset: int) -> (int, int) {
        let (px, py) = view_plane(facing);
        let ahead = self.half_columns * self.plane_distance;
        let aside = offset * self.plane_half_width;
        (facing.x * ahead + px * aside, facing.y * ahead + py * aside)
    }

    /// The `k`-th ray of the viewer at `pose`.
    pub open spec fn ray_of(&self, pose: Pose, k: int) -> Ray {
        let (dx, dy) = self.direction_to(pose.facing, self.offset_of(k));
        Ray {
            origin: pose.position,
            direction: Vector { x: dx as i32, y: dy as i32 },
            offset: self.offset_of(k) as i32,
        }
    }

    /// A ray's direction fits the machine's integers and points ahead: its
    /// part along `facing` is the same positive amount for every sample point.
    pub proof fn lemma_direction_to(&self, facing: Vector, offset: int)
        requires
            self.wf(),
            -FACING_LIMIT <= facing.x <= FACING_LIMIT,
            -FACING_LIMIT <= facing.y <= FACING_LIMIT,
            -self.half_columns <= offset <= self.half_columns,
        ensures
            ({
                let (dx, dy) = self.direction_to(facing, offset);
                &&& -0x4000_0000 <= dx <= 0x4000_0000
                &&& -0x4000_0000 <= dy <= 0x4000_0000
                &&& dot(dx, dy, facing.x as int, facing.y as int) == self.half_columns
                    * self.plane_distance * dot(
                    facing.x as int,
                    facing.y as int,
                    facing.x as int,
                    facing.y as int,
                )
                &&& (facing.x != 0 || facing.y != 0) ==> dot(
                    dx,
                    dy,
                    facing.x as int,
                    facing.y as int,
                ) > 0
            }),
    {
        let (px, py) = view_plane(facing);
        let (dx, dy) = self.direction_to(facing, offset);
        let ahead = self.half_columns * self.plane_distance;
        let aside = offset * self.plane_half_width;
        let fx = facing.x as int;
        let fy = facing.y as int;
        assert(1 <= ahead <= 0x8000 && -0x8000 <= aside <= 0x8000) by (nonlinear_arith)
            requires
                1 <= self.half_columns <= 2048,
                1 <= self.plane_distance <= 16,
                1 <= self.plane_half_width <= 16,
                -self.half_columns <= offset <= self.half_columns,
                ahead == self.half_columns * self.plane_distance,
                aside == offset * self.plane_half_width,
        ;
        assert(-0x2000_0000 <= fx * ahead <= 0x2000_0000 && -0x2000_0000 <= fy * ahead
            <= 0x2000_0000 && -0x2000_0000 <= px * aside <= 0x2000_0000 && -0x2000_0000 <= py
            * aside <= 0x2000_0000) by (nonlinear_arith)
            requires
                1 <= ahead <= 0x8000,
                -0x8000 <= aside <= 0x8000,
                -0x4000 <= fx <= 0x4000,
                -0x4000 <= fy <= 0x4000,
                -0x4000 <= px <= 0x4000,
                -0x4000 <= py <= 0x4000,
        ;
        assert(px * fx + py * fy == 0) by (nonlinear_arith)
            requires
                (px == -fy && py == fx) || (px == fy && py == -fx),
        ;
        assert((fx * ahead + px * aside) * fx == ahead * (fx * fx) + aside * (px * fx))
            by (nonlinear_arith);
        assert((fy * ahead + py * aside) * fy == ahead * (fy * fy) + aside * (py * fy))
            by (nonlinear_arith);
        assert(aside * (px * fx) + aside * (py * fy) == aside * (px * fx + py * fy))
            by (nonlinear_arith);
        assert(ahead * (fx * fx) + ahead * (fy * fy) == ahead * (fx * fx + fy * fy))
            by (nonlinear_arith);
        assert(dot(dx, dy, fx, fy) == ahead * dot(fx, fy, fx, fy));
        if fx != 0 || fy != 0 {
            assert(ahead * dot(fx, fy, fx, fy) > 0) by (nonlinear_arith)
                requires
                    ahead >= 1,
                    fx != 0 || fy != 0,
            ;
        }
    }

    /// Whether the camera is valid.
    pub fn is_valid(&self) -> (b: bool)
        ensures
            b == self.wf(),
    {
        1 <= self.screen_width && self.screen_width <= SCREEN_LIMIT && 1 <= self.screen_height
            && self.screen_height <= SCREEN_LIMIT && 1 <= self.half_columns && self.half_columns
            <= HALF_COLUMNS_LIMIT && 1 <= self.step && self.step <= 2 * self.half_columns && 1
            <= self.plane_distance && self.plane_distance <= PLANE_LIMIT && 1
            <= self.plane_half_width && self.plane_half_width <= PLANE_LIMIT && 0
            <= self.wall_scale && self.wall_scale <= WALL_SCALE_LIMIT
    }

    /// The ray from `pose` through sample point `offset` of the view plane.
    pub fn ray_through(&self, pose: Pose, offset: i32) -> (ray: Ray)
        requires
            self.wf(),
            pose.wf(),
            -self.half_columns <= offset <= self.half_columns,
        ensures
            ray.origin == pose.position,
            ray.offset == offset,
            (ray.direction.x as int, ray.direction.y as int) == self.direction_to(
                pose.facing,
                offset as int,
            ),
            ray.direction.x != 0 || ray.direction.y != 0,
    {
        let fx: i32 = pose.facing.x;
        let fy: i32 = pose.facing.y;
        let px: i32 = if fx >= 0 {
            -fy
        } else {
            fy
        };
        let py: i32 = if fx >= 0 {
            fx
        } else {
            -fx
        };
        proof {
            self.lemma_direction_to(pose.facing, offset as int);
        }
        assert(1 <= self.half_columns * self.plane_distance <= 0x8000 && -0x8000 <= offset
            * self.plane_half_width <= 0x8000) by (nonlinear_arith)
            requires
                1 <= self.half_columns <= 2048,
                1 <= self.plane_distance <= 16,
                1 <= self.plane_half_width <= 16,
                -self.half_columns <= offset <= self.half_columns,
        ;
        let ahead: i32 = self.half_columns * self.plane_distance;
        let aside: i32 = offset * self.plane_half_width;
        assert(-0x2000_0000 <= fx * ahead <= 0x2000_0000 && -0x2000_0000 <= fy * ahead
            <= 0x2000_0000 && -0x2000_0000 <= px * aside <= 0x2000_0000 && -0x2000_0000 <= py
            * aside <= 0x2000_0000) by (nonlinear_arith)
            requires
                1 <= ahead <= 0x8000,
                -0x8000 <= aside <= 0x8000,
                -0x4000 <= fx <= 0x4000,
                -0x4000 <= fy <= 0x4000,
                -0x4000 <= px <= 0x4000,
                -0x4000 <= py <= 0x4000,
        ;
        let dx: i32 = fx * ahead + px * aside;
        let dy: i32 = fy * ahead + py * aside;
        assert(dx != 0 || dy != 0) by (nonlinear_arith)
            requires
                dx * fx + dy * fy > 0,
        ;
        Ray { origin: pose.position, direction: Vector { x: dx, y: dy }, offset }
    }

    /// The rays of one frame, from the left edge of the view plane to the
    /// right: all from the viewer's position, one through every `step`-th
    /// sample point of the view plane.
    pub fn generate_rays(&self, pose: Pose) -> (rays: Vec<Ray>)
        requires
            self.wf(),
            pose.wf(),
        ensures
            rays@.len() == self.column_count(),
            forall|k: int| 0 <= k < rays@.len() ==> #[trigger] rays@[k] == self.ray_of(pose, k),
    {
        let mut rays: Vec<Ray> = Vec::new();
        let mut offset: i32 = -self.half_columns;
        let ghost mut k: int = 0;
        while offset <= self.half_columns
            invariant
                self.wf(),
                pose.wf(),
                0 <= k,
                offset == self.offset_of(k),
                -self.half_columns <= offset <= self.half_columns + self.step,
                k > 0 ==> self.offset_of(k - 1) <= self.half_columns,
                rays@.len() == k,
                forall|i: int| 0 <= i < k ==> #[trigger] rays@[i] == self.ray_of(pose, i),
            decreases self.half_columns + self.step - offset,
        {
            let ray = self.ray_through(pose, offset);
            assert(ray == self.ray_of(pose, k));
            rays.push(ray);
            assert((k + 1) * self.step == k * self.step + self.step) by (nonlinear_arith);
            offset = offset + self.step;
            proof {
                k = k + 1;
            }
        }
        proof {
            let n = 2 * self.half_columns;
            let s = self.step as int;
            assert((k - 1) * s == k * s - s) by (nonlinear_arith);
            lemma_fundamental_div_mod_converse(n, s, k - 1, n - (k - 1) * s);
        }
        rays
    }
}

} // verus!
