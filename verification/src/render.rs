//! From a ray to a column of the screen: the distance of the wall that the
//! ray strikes from the view plane, and the vertical segment that shows it.

use vstd::prelude::*;
use crate::arith::{abs, floor_sqrt, is_sqrt_floor, lemma_sqrt_floor_bounds, sqrt_floor};
use crate::geometry::{cross, dot, Point, Side, Vector};
use crate::projection::{view_plane, Camera, Pose, Ray};
use crate::traversal::Hit;
use crate::world::{World, COORD_LIMIT};

verus! {

/// The colour of a wall.
#[derive(Clone, Copy, Debug, PartialEq, Eq, Structural)]
pub enum WallColor {
    Blue,
    Red,
    Yellow,
}

/// One column of the screen: a vertical segment that shows a wall.
#[derive(Clone, Copy, Debug, PartialEq, Eq, Structural)]
pub struct Column {
    /// The segment's horizontal position on screen.
    pub x: i32,
    /// The segment's upper end.
    pub top: i32,
    /// The segment's lower end.
    pub bottom: i32,
    /// The segment's width.
    pub width: i32,
    /// The wall's colour.
    pub color: WallColor,
    /// Whether the wall is drawn darker: it is where the ray entered the
    /// cell through a horizontal grid line.
    pub shaded: bool,
    /// The wall's distance from the view plane, in world units, rounded down.
    pub distance: u64,
    /// The wall that the ray struck.
    pub hit: Hit,
}

/// The colour of a wall of kind `value`: red for `2`, yellow for `3`, blue
/// for every other kind.
pub open spec fn color_of(value: int) -> WallColor {
    if value == 2 {
        WallColor::Red
    } else if value == 3 {
        WallColor::Yellow
    } else {
        WallColor::Blue
    }
}

/// Whether both coordinates of `p` are within `COORD_LIMIT` of zero.
pub open spec fn within_limit(p: Point) -> bool {
    -COORD_LIMIT <= p.x <= COORD_LIMIT && -COORD_LIMIT <= p.y <= COORD_LIMIT
}

/// Twice the area of the triangle `start`, `end`, `point`.
pub open spec fn doubled_area(start: Point, end: Point, point: Point) -> int {
    abs(cross(end.x - start.x, end.y - start.y, point.x - start.x, point.y - start.y))
}

/// The square of the distance from `start` to `end`.
pub open spec fn squared_length(start: Point, end: Point) -> int {
    dot(end.x - start.x, end.y - start.y, end.x - start.x, end.y - start.y)
}

/// The distance of `point` from the line through `start` and `end`, rounded down:
/// the triangle's doubled area divided by the length of its base.
pub open spec fn line_distance(start: Point, end: Point, point: Point) -> nat {
    let n = doubled_area(start, end, point);
    sqrt_floor(((n * n) / squared_length(start, end)) as nat)
}

/// `line_distance` is the largest whole number that, times the length of
/// the base, does not exceed the doubled area.
pub proof fn lemma_line_distance_bounds(start: Point, end: Point, point: Point)
    requires
        start != end,
    ensures
        ({
            let d = line_distance(start, end, point) as int;
            let n = doubled_area(start, end, point);
            let l = squared_length(start, end);
            d * d * l <= n * n < (d + 1) * (d + 1) * l
        }),
{
    let n = doubled_area(start, end, point);
    let l = squared_length(start, end);
    let ax = end.x - start.x;
    let ay = end.y - start.y;
    assert(l > 0) by (nonlinear_arith)
        requires
            l == ax * ax + ay * ay,
            ax != 0 || ay != 0,
    ;
    let q = (n * n) / l;
    assert(q >= 0 && q * l <= n * n < (q + 1) * l) by (nonlinear_arith)
        requires
            l > 0,
            q == (n * n) / l,
    ;
    let d = sqrt_floor(q as nat) as int;
    lemma_sqrt_floor_bounds(q as nat);
    assert(is_sqrt_floor(q as nat, d as nat));
    assert(d * d * l <= n * n < (d + 1) * (d + 1) * l) by (nonlinear_arith)
        requires
            l > 0,
            d >= 0,
            d * d <= q < (d + 1) * (d + 1),
            q * l <= n * n < (q + 1) * l,
    ;
}

/// The distance from a line does not depend on which of the two points
/// that define the line is named first.
pub proof fn lemma_line_distance_symmetric(start: Point, end: Point, point: Point)
    ensures
        line_distance(start, end, point) == line_distance(end, start, point),
{
    let ax = end.x - start.x;
    let ay = end.y - start.y;
    let bx = point.x - start.x;
    let by = point.y - start.y;
    assert(cross(-ax, -ay, bx - ax, by - ay) == -cross(ax, ay, bx, by)) by (nonlinear_arith);
    assert(dot(-ax, -ay, -ax, -ay) == dot(ax, ay, ax, ay)) by (nonlinear_arith);
    assert(doubled_area(end, start, point) == doubled_area(start, end, point));
    assert(squared_length(end, start) == squared_length(start, end));
}

impl Camera {
    /// The two points that define the view plane of the viewer at `pose`:
    /// the point `plane_distance` lengths of `facing` in front of the
    /// viewer, and the point one such length from it along the plane.
    pub open spec fn plane_points(&self, pose: Pose) -> (Point, Point) {
        let (px, py) = view_plane(pose.facing);
        let x = pose.position.x + pose.facing.x * self.plane_distance;
        let y = pose.position.y + pose.facing.y * self.plane_distance;
        (Point { x: x as i32, y: y as i32 }, Point { x: (x + px) as i32, y: (y + py) as i32 })
    }

    /// The height on screen of a wall at `distance` from the view plane.
    pub open spec fn line_height(&self, distance: int) -> int {
        (self.screen_height * self.wall_scale) / distance
    }

    /// The upper and the lower end of the segment that shows a wall at
    /// `distance`: centred on the middle of the screen and cut off at its
    /// edges. A wall at distance zero fills the screen from top to bottom.
    pub open spec fn span_of(&self, distance: int) -> (int, int) {
        let mid = self.screen_height as int / 2;
        let half = self.line_height(distance) / 2;
        if distance == 0 {
            (0, self.screen_height - 1)
        } else {
            (
                if mid - half < 0 {
                    0
                } else {
                    mid - half
                },
                if mid + half > self.screen_height - 1 {
                    self.screen_height - 1
                } else {
                    mid + half
                },
            )
        }
    }

    /// The horizontal position on screen of the ray through sample point
    /// `offset`: from `0` at the one end of the view plane to the screen's
    /// width at the other, and mirrored for a viewer who faces left.
    pub open spec fn screen_x_of(&self, facing: Vector, offset: int) -> int {
        let x = (self.screen_width * (offset + self.half_columns)) / (2 * self.half_columns);
        if facing.x < 0 {
            self.screen_width - x
        } else {
            x
        }
    }

    /// The width on screen of one column.
    pub open spec fn column_width_of(&self) -> int {
        (self.screen_width * self.step) / (2 * self.half_columns)
    }

    /// The column that shows the wall `hit`, struck by the ray through
    /// sample point `offset`.
    pub open spec fn column_of(&self, pose: Pose, offset: int, hit: Hit) -> Column {
        let (start, end) = self.plane_points(pose);
        let distance = line_distance(start, end, hit.point);
        let (top, bottom) = self.span_of(distance as int);
        Column {
            x: self.screen_x_of(pose.facing, offset) as i32,
            top: top as i32,
            bottom: bottom as i32,
            width: self.column_width_of() as i32,
            color: color_of(hit.value as int),
            shaded: hit.side == Side::Y,
            distance: distance as u64,
            hit,
        }
    }

    /// Every ray of a frame passes through a sample point of the view plane.
    pub proof fn lemma_offset_of(&self, k: int)
        requires
            self.wf(),
            0 <= k < self.column_count(),
        ensures
            -self.half_columns <= self.offset_of(k) <= self.half_columns,
    {
        let n = 2 * self.half_columns;
        let s = self.step as int;
        assert(0 <= k * s <= n) by (nonlinear_arith)
            requires
                0 <= k <= n / s,
                s >= 1,
                n >= 0,
        ;
    }

    /// The two points that define the view plane: see `plane_points`.
    pub fn view_plane_points(&self, pose: Pose) -> (r: (Point, Point))
        requires
            self.wf(),
            pose.wf(),
        ensures
            r == self.plane_points(pose),
            r.0 != r.1,
            within_limit(r.0),
            within_limit(r.1),
    {
        let fx: i32 = pose.facing.x;
        let fy: i32 = pose.facing.y;
        assert(-0x4_0000 <= fx * self.plane_distance <= 0x4_0000 && -0x4_0000 <= fy
            * self.plane_distance <= 0x4_0000) by (nonlinear_arith)
            requires
                -0x4000 <= fx <= 0x4000,
                -0x4000 <= fy <= 0x4000,
                1 <= self.plane_distance <= 16,
        ;
        let x: i32 = pose.position.x + fx * self.plane_distance;
        let y: i32 = pose.position.y + fy * self.plane_distance;
        if fx >= 0 {
            (Point { x, y }, Point { x: x - fy, y: y + fx })
        } else {
            (Point { x, y }, Point { x: x + fy, y: y - fx })
        }
    }

    /// The upper and the lower end of a wall's segment: see `span_of`.
    pub fn column_span(&self, distance: u64) -> (span: (i32, i32))
        requires
            self.wf(),
        ensures
            (span.0 as int, span.1 as int) == self.span_of(distance as int),
            0 <= span.0 <= span.1 <= self.screen_height - 1,
    {
        let mid: i64 = (self.screen_height / 2) as i64;
        let last: i64 = (self.screen_height - 1) as i64;
        if distance == 0 {
            return (0, last as i32);
        }
        assert(0 <= self.screen_height * self.wall_scale <= 0x2000_0000_0000) by (nonlinear_arith)
            requires
                1 <= self.screen_height <= 0x8000,
                0 <= self.wall_scale <= 0x4000_0000,
        ;
        let full: u64 = (self.screen_height as u64) * (self.wall_scale as u64);
        let height: u64 = full / distance;
        assert(0 <= height <= full) by (nonlinear_arith)
            requires
                0 <= full,
                distance >= 1,
                height == full as int / distance as int,
        ;
        let half: i64 = (height / 2) as i64;
        let top: i64 = if mid - half < 0 {
            0
        } else {
            mid - half
        };
        let bottom: i64 = if mid + half > last {
            last
        } else {
            mid + half
        };
        (top as i32, bottom as i32)
    }

    /// The horizontal position of a ray's column: see `screen_x_of`.
    pub fn screen_x(&self, facing: Vector, offset: i32) -> (x: i32)
        requires
            self.wf(),
            -self.half_columns <= offset <= self.half_columns,
        ensures
            x == self.screen_x_of(facing, offset as int),
            0 <= x <= self.screen_width,
    {
        let shifted: i32 = offset + self.half_columns;
        let span: i32 = 2 * self.half_columns;
        assert(0 <= self.screen_width * shifted <= self.screen_width * span <= 0x800_0000)
            by (nonlinear_arith)
            requires
                1 <= self.screen_width <= 0x8000,
                0 <= shifted <= span,
                span <= 4096,
        ;
        let x: i32 = (self.screen_width * shifted) / span;
        assert(0 <= x <= self.screen_width) by (nonlinear_arith)
            requires
                0 <= self.screen_width * shifted <= self.screen_width * span,
                span >= 1,
                x == (self.screen_width * shifted) / (span as int),
        ;
        if facing.x < 0 {
            self.screen_width - x
        } else {
            x
        }
    }

    /// The width of one column: see `column_width_of`.
    pub fn column_width(&self) -> (w: i32)
        requires
            self.wf(),
        ensures
            w == self.column_width_of(),
            0 <= w <= self.screen_width,
    {
        let span: i32 = 2 * self.half_columns;
        assert(0 <= self.screen_width * self.step <= self.screen_width * span <= 0x800_0000)
            by (nonlinear_arith)
            requires
                1 <= self.screen_width <= 0x8000,
                1 <= self.step <= span,
                span <= 4096,
        ;
        let w: i32 = (self.screen_width * self.step) / span;
        assert(0 <= w <= self.screen_width) by (nonlinear_arith)
            requires
                0 <= self.screen_width * self.step <= self.screen_width * span,
                span >= 1,
                w == (self.screen_width * self.step) / (span as int),
        ;
        w
    }
}

/// Whether `out` is what the ray `ray` of the viewer at `pose` shows: the
/// column of the first wall that the ray strikes, or nothing if the ray
/// leaves the world without striking one.
pub open spec fn renders(world: World, camera: Camera, pose: Pose, ray: Ray, out: Option<Column>) -> bool {
    match out {
        Some(c) => world.is_first_hit(ray.origin, ray.direction, c.hit) && c == camera.column_of(
            pose,
            ray.offset as int,
            c.hit,
        ),
        None => world.no_hit(ray.origin, ray.direction),
    }
}

/// The colour of a wall of kind `cell_value`.
pub fn get_color(cell_value: i32) -> (c: WallColor)
    ensures
        c == color_of(cell_value as int),
{
    match cell_value {
        1 => WallColor::Blue,
        2 => WallColor::Red,
        3 => WallColor::Yellow,
        _ => WallColor::Blue,
    }
}

/// The distance of `point` from the line through `start` and `end`, rounded down.
pub fn point_line_distance(start: Point, end: Point, point: Point) -> (d: u64)
    requires
        start != end,
        within_limit(start),
        within_limit(end),
        within_limit(point),
    ensures
        d == line_distance(start, end, point),
{
    let ax: i128 = end.x as i128 - start.x as i128;
    let ay: i128 = end.y as i128 - start.y as i128;
    let bx: i128 = point.x as i128 - start.x as i128;
    let by: i128 = point.y as i128 - start.y as i128;
    assert(-0x4000_0000_0000_0000 <= ax * by <= 0x4000_0000_0000_0000 && -0x4000_0000_0000_0000
        <= ay * bx <= 0x4000_0000_0000_0000 && 0 <= ax * ax <= 0x4000_0000_0000_0000 && 0 <= ay
        * ay <= 0x4000_0000_0000_0000 && ax * ax + ay * ay > 0) by (nonlinear_arith)
        requires
            -0x8000_0000 <= ax <= 0x8000_0000,
            -0x8000_0000 <= ay <= 0x8000_0000,
            -0x8000_0000 <= bx <= 0x8000_0000,
            -0x8000_0000 <= by <= 0x8000_0000,
            ax != 0 || ay != 0,
    ;
    let c: i128 = ax * by - ay * bx;
    let n: u128 = if c < 0 {
        (-c) as u128
    } else {
        c as u128
    };
    let l: u128 = (ax * ax + ay * ay) as u128;
    assert(n * n <= 0x8000_0000_0000_0000 * 0x8000_0000_0000_0000) by (nonlinear_arith)
        requires
            0 <= n <= 0x8000_0000_0000_0000,
    ;
    let q: u128 = (n * n) / l;
    let d: u128 = floor_sqrt(q);
    assert(d <= n) by (nonlinear_arith)
        requires
            d * d <= q,
            q == (n * n) / (l as int),
            l >= 1,
            0 <= d,
            0 <= n,
    ;
    d as u64
}

/// Follows `ray` to the first wall that it strikes and returns the column
/// that shows the wall, as seen by the viewer at `pose`; `None` if the ray
/// strikes no wall.
pub fn render_column(world: &World, camera: &Camera, pose: Pose, ray: Ray) -> (r: Option<Column>)
    requires
        world.wf(),
        camera.wf(),
        pose.wf(),
        -camera.half_columns <= ray.offset <= camera.half_columns,
    ensures
        renders(*world, *camera, pose, ray, r),
{
    match world.cast(ray.origin, ray.direction) {
        None => None,
        Some(hit) => {
            let (start, end) = camera.view_plane_points(pose);
            let distance: u64 = point_line_distance(start, end, hit.point);
            let (top, bottom) = camera.column_span(distance);
            Some(
                Column {
                    x: camera.screen_x(pose.facing, ray.offset),
                    top,
                    bottom,
                    width: camera.column_width(),
                    color: get_color(hit.value),
                    shaded: hit.side == Side::Y,
                    distance,
                    hit,
                },
            )
        },
    }
}

/// Renders one frame: the column of every ray of the viewer at `pose`, from
/// the first ray to the last.
pub fn render_frame(world: &World, camera: &Camera, pose: Pose) -> (columns: Vec<Option<Column>>)
    requires
        world.wf(),
        camera.wf(),
        pose.wf(),
    ensures
        columns@.len() == camera.column_count(),
        forall|k: int|
            0 <= k < columns@.len() ==> renders(
                *world,
                *camera,
                pose,
                camera.ray_of(pose, k),
                #[trigger] columns@[k],
            ),
{
    let rays = camera.generate_rays(pose);
    let mut columns: Vec<Option<Column>> = Vec::new();
    let mut k: usize = 0;
    while k < rays.len()
        invariant
            world.wf(),
            camera.wf(),
            pose.wf(),
            k <= rays@.len(),
            rays@.len() == camera.column_count(),
            forall|i: int| 0 <= i < rays@.len() ==> #[trigger] rays@[i] == camera.ray_of(pose, i),
            columns@.len() == k,
            forall|i: int|
                0 <= i < k ==> renders(
                    *world,
                    *camera,
                    pose,
                    camera.ray_of(pose, i),
                    #[trigger] columns@[i],
                ),
        decreases rays@.len() - k,
    {
        let ray = rays[k];
        proof {
            camera.lemma_offset_of(k as int);
        }
        let column = render_column(world, camera, pose, ray);
        columns.push(column);
        k = k + 1;
    }
    columns
}

} // verus!
