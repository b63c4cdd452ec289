//! Grid traversal: from a point on a ray to the next grid line that the ray
//! crosses, the cell behind that line, and the first wall on the way.

use vstd::prelude::*;
use vstd::arithmetic::div_mod::{lemma_fundamental_div_mod, lemma_mod_multiples_basic};
use crate::arith::{abs, floor_mod, magnitude, signum};
use crate::geometry::{cross, dot, progress, Point, Side, Vector};
use crate::world::World;

verus! {

/// The grid line next to `c` on one axis, for lines `w` apart and a ray that
/// moves by `d` on that axis: for `d > 0` the first line above `c`, else the
/// first line below `c`. A line at `c` itself is never the answer.
pub open spec fn next_line(c: int, d: int, w: int) -> int {
    if d > 0 {
        c - c % w + w
    } else if c % w == 0 {
        c - w
    } else {
        c - c % w
    }
}

/// `next_line` is a grid line, at most one cell away from `c` and on the
/// side that `d` points to.
pub proof fn lemma_next_line(c: int, d: int, w: int)
    requires
        w > 0,
    ensures
        next_line(c, d, w) % w == 0,
        d > 0 ==> c < next_line(c, d, w) <= c + w,
        d <= 0 ==> c - w <= next_line(c, d, w) < c,
{
    let k = c / w;
    lemma_fundamental_div_mod(c, w);
    lemma_mod_multiples_basic(k, w);
    lemma_mod_multiples_basic(k + 1, w);
    lemma_mod_multiples_basic(k - 1, w);
    assert(k * w == w * k && (k + 1) * w == w * k + w && (k - 1) * w == w * k - w)
        by (nonlinear_arith);
}

/// What a ray gains on the other axis while it moves by `step` on one axis,
/// where it gains `rise` for every `run`: `rise * step / run`, rounded
/// towards zero. `step` and `run` point the same way.
pub open spec fn slope_offset(rise: int, step: int, run: int) -> int {
    signum(rise) * ((abs(rise) * abs(step)) / abs(run))
}

/// `slope_offset` points the way `rise` does, and differs from the exact
/// quotient by less than one unit.
pub proof fn lemma_slope_offset(rise: int, step: int, run: int)
    requires
        run != 0,
        step != 0,
        (step > 0) == (run > 0),
    ensures
        step * run > 0,
        slope_offset(rise, step, run) * rise >= 0,
        rise > 0 ==> slope_offset(rise, step, run) >= 0,
        rise < 0 ==> slope_offset(rise, step, run) <= 0,
        rise == 0 ==> slope_offset(rise, step, run) == 0,
        abs(slope_offset(rise, step, run) * run - rise * step) < abs(run),
{
    let n = abs(rise) * abs(step);
    let r = abs(run);
    let q = n / r;
    lemma_fundamental_div_mod(n, r);
    assert(step * run > 0) by (nonlinear_arith)
        requires
            run != 0,
            step != 0,
            (step > 0) == (run > 0),
    ;
    assert(n >= 0) by (nonlinear_arith)
        requires
            n == abs(rise) * abs(step),
    ;
    assert(q >= 0 && n == q * r + n % r) by (nonlinear_arith)
        requires
            n >= 0,
            r > 0,
            q == n / r,
            n == r * q + n % r,
    ;
    if rise == 0 {
        assert(n == 0) by (nonlinear_arith)
            requires
                n == abs(rise) * abs(step),
                rise == 0,
        ;
    }
    let off = slope_offset(rise, step, run);
    assert(off == signum(rise) * q);
    assert(off * rise >= 0) by (nonlinear_arith)
        requires
            q >= 0,
            off == signum(rise) * q,
            rise > 0 ==> signum(rise) == 1,
            rise < 0 ==> signum(rise) == -1,
            rise == 0 ==> signum(rise) == 0,
    ;
    assert(abs(off * run - rise * step) == n % r) by (nonlinear_arith)
        requires
            n == abs(rise) * abs(step),
            r == abs(run),
            n == q * r + n % r,
            0 <= n % r,
            off == signum(rise) * q,
            run != 0,
            step != 0,
            (step > 0) == (run > 0),
    ;
}

/// Whether a ray reaches the next vertical line, `step_x` away, before the
/// next horizontal line, `step_y` away. A ray that does not move in `x`
/// never does, one that does not move in `y` always does, and a ray that
/// reaches both at once crosses the horizontal line.
pub open spec fn x_first(step_x: int, step_y: int, dir: Vector) -> bool {
    dir.x != 0 && (dir.y == 0 || abs(step_x) * abs(dir.y as int) < abs(step_y) * abs(dir.x as int))
}

/// To reach the vertical line first is to have gained less on the way to
/// it than the horizontal line is away.
pub proof fn lemma_x_first(step_x: int, step_y: int, dir: Vector)
    requires
        dir.x != 0,
        step_x != 0,
        step_y != 0,
    ensures
        x_first(step_x, step_y, dir) <==> abs(slope_offset(dir.y as int, step_x, dir.x as int))
            < abs(step_y),
{
    let n = abs(dir.y as int) * abs(step_x);
    let r = abs(dir.x as int);
    let q = n / r;
    let m = abs(step_y);
    lemma_fundamental_div_mod(n, r);
    assert(q < m <==> n < m * r) by (nonlinear_arith)
        requires
            r > 0,
            n == r * q + n % r,
            0 <= n % r < r,
    ;
    assert(n == abs(step_x) * abs(dir.y as int) && n >= 0 && (dir.y == 0 ==> n == 0))
        by (nonlinear_arith)
        requires
            n == abs(dir.y as int) * abs(step_x),
    ;
    assert(q >= 0 && (n == 0 ==> q == 0)) by (nonlinear_arith)
        requires
            r > 0,
            n >= 0,
            n == r * q + n % r,
            0 <= n % r < r,
    ;
    assert(slope_offset(dir.y as int, step_x, dir.x as int) == signum(dir.y as int) * q);
    assert(abs(slope_offset(dir.y as int, step_x, dir.x as int)) == q);
}

/// What is left of the extent on one axis in front of `c`, for a ray that
/// moves by `d` on that axis.
pub open spec fn axis_remaining(c: int, d: int, extent: int) -> int {
    if d > 0 {
        extent - c
    } else if d < 0 {
        c
    } else {
        0
    }
}

/// The index of the cell behind the grid line at `c`, for lines `w` apart
/// and a ray that moves by `d` across it: the cell that starts at the line
/// if `d > 0`, else the one before it, unless the line is the world's edge.
pub open spec fn far_index(d: int, c: int, w: int) -> int {
    let i = c / w;
    if d > 0 || i == 0 {
        i
    } else {
        i - 1
    }
}

/// The grid line next to `c`: see `next_line`.
pub fn generate_next(c: i32, dir: i32, w: i32) -> (next: i64)
    requires
        w > 0,
    ensures
        next == next_line(c as int, dir as int, w as int),
{
    let m: i64 = floor_mod(c as i64, w as i64);
    if dir > 0 {
        c as i64 - m + w as i64
    } else if m == 0 {
        c as i64 - w as i64
    } else {
        c as i64 - m
    }
}

/// The gain on the other axis: see `slope_offset`.
pub fn follow_slope(rise: i32, step: i64, run: i32) -> (off: i64)
    requires
        run != 0,
        -0x8000_0000 <= step <= 0x8000_0000,
    ensures
        off == slope_offset(rise as int, step as int, run as int),
        -0x4000_0000_0000_0000 <= off <= 0x4000_0000_0000_0000,
{
    let a: i64 = magnitude(rise);
    let s: i64 = if step < 0 {
        -step
    } else {
        step
    };
    let r: i64 = magnitude(run);
    assert(0 <= a * s <= 0x4000_0000_0000_0000) by (nonlinear_arith)
        requires
            0 <= a <= 0x8000_0000,
            0 <= s <= 0x8000_0000,
    ;
    let q: i64 = (a * s) / r;
    assert(0 <= q <= a * s) by (nonlinear_arith)
        requires
            0 <= a * s,
            r >= 1,
            q == (a * s) / (r as int),
    ;
    if rise > 0 {
        q
    } else if rise < 0 {
        -q
    } else {
        0
    }
}

/// The index of the cell behind a grid line: see `far_index`.
pub fn get_corresponding_index(dir: i32, c: i32, w: i32) -> (i: usize)
    requires
        w > 0,
        c >= 0,
    ensures
        i == far_index(dir as int, c as int, w as int),
{
    let i: i32 = c / w;
    assert(0 <= i) by (nonlinear_arith)
        requires
            c >= 0,
            w > 0,
            i == c as int / w as int,
    ;
    if dir > 0 || i == 0 {
        i as usize
    } else {
        (i - 1) as usize
    }
}

/// A wall that a ray has struck.
#[derive(Clone, Copy, Debug, PartialEq, Eq, Structural)]
pub struct Hit {
    /// The column of the wall's cell.
    pub col: usize,
    /// The row of the wall's cell.
    pub row: usize,
    /// The orientation of the grid line through which the ray entered the cell.
    pub side: Side,
    /// Where the ray crossed that line.
    pub point: Point,
    /// The cell's wall code, which is positive.
    pub value: i32,
}

impl World {
    /// Where a ray at `cur` with direction `dir` meets a grid line next,
    /// whether inside the world or not. From a corner of the grid the ray
    /// moves one unit along the horizontal line, or along the vertical line
    /// if it does not move in `x`. From any other point it goes to the
    /// nearer of the next vertical and the next horizontal line.
    pub open spec fn step(&self, cur: Point, dir: Vector) -> (int, int) {
        let next_x = next_line(cur.x as int, dir.x as int, self.spec_cell_width() as int);
        let next_y = next_line(cur.y as int, dir.y as int, self.spec_cell_height() as int);
        if self.on_corner(cur) {
            if dir.x != 0 {
                (cur.x + signum(dir.x as int), cur.y as int)
            } else {
                (cur.x as int, cur.y + signum(dir.y as int))
            }
        } else if x_first(next_x - cur.x, next_y - cur.y, dir) {
            (next_x, cur.y + slope_offset(dir.y as int, next_x - cur.x, dir.x as int))
        } else {
            (cur.x + slope_offset(dir.x as int, next_y - cur.y, dir.y as int), next_y)
        }
    }

    /// The next crossing of a ray at `cur` with direction `dir`: the point
    /// of `step`, if it lies in the world. There is none where the ray
    /// leaves the world, and none for a direction of length zero.
    pub open spec fn crossing_after(&self, cur: Point, dir: Vector) -> Option<Point> {
        let (x, y) = self.step(cur, dir);
        if (dir.x != 0 || dir.y != 0) && self.in_bounds(x, y) {
            Some(Point { x: x as i32, y: y as i32 })
        } else {
            None
        }
    }

    /// How many units of the world lie in front of `(x, y)`, counted on each
    /// axis on which the ray moves. Every crossing has fewer in front of it
    /// than the point before it.
    pub open spec fn remaining(&self, x: int, y: int, dir: Vector) -> int {
        axis_remaining(x, dir.x as int, self.spec_width() as int) + axis_remaining(
            y,
            dir.y as int,
            self.spec_height() as int,
        )
    }

    /// A step ends on a grid line, away from where it began, further along
    /// the ray, and with less of the world in front of it.
    pub proof fn lemma_step(&self, cur: Point, dir: Vector)
        requires
            self.wf(),
            dir.x != 0 || dir.y != 0,
        ensures
            ({
                let (x, y) = self.step(cur, dir);
                &&& self.on_vertical_line(x) || self.on_horizontal_line(y)
                &&& x != cur.x || y != cur.y
                &&& dot(x - cur.x, y - cur.y, dir.x as int, dir.y as int) > 0
                &&& self.remaining(x, y, dir) < self.remaining(cur.x as int, cur.y as int, dir)
                &&& self.in_bounds(x, y) ==> self.remaining(x, y, dir) >= 0
            }),
    {
        let cw = self.spec_cell_width() as int;
        let ch = self.spec_cell_height() as int;
        let next_x = next_line(cur.x as int, dir.x as int, cw);
        let next_y = next_line(cur.y as int, dir.y as int, ch);
        let (x, y) = self.step(cur, dir);
        lemma_next_line(cur.x as int, dir.x as int, cw);
        lemma_next_line(cur.y as int, dir.y as int, ch);
        if self.on_corner(cur) {
            assert(signum(dir.x as int) * dir.x >= 0 && signum(dir.y as int) * dir.y >= 0);
        } else if x_first(next_x - cur.x, next_y - cur.y, dir) {
            let off = slope_offset(dir.y as int, next_x - cur.x, dir.x as int);
            lemma_slope_offset(dir.y as int, next_x - cur.x, dir.x as int);
            assert(x - cur.x == next_x - cur.x && y - cur.y == off);
            assert((x - cur.x) * dir.x > 0 && (y - cur.y) * dir.y >= 0);
        } else {
            let off = slope_offset(dir.x as int, next_y - cur.y, dir.y as int);
            lemma_slope_offset(dir.x as int, next_y - cur.y, dir.y as int);
            assert(x - cur.x == off && y - cur.y == next_y - cur.y);
            assert((x - cur.x) * dir.x >= 0 && (y - cur.y) * dir.y > 0);
        }
    }

    /// All crossings of the ray from `cur` with direction `dir`, in the
    /// order in which the ray makes them, up to the point where it leaves
    /// the world.
    pub open spec fn crossings(&self, cur: Point, dir: Vector) -> Seq<Point>
        decreases self.remaining(cur.x as int, cur.y as int, dir),
        when self.wf()
    {
        match self.crossing_after(cur, dir) {
            None => Seq::empty(),
            Some(p) => {
                proof {
                    self.lemma_step(cur, dir);
                }
                seq![p] + self.crossings(p, dir)
            },
        }
    }

    /// A crossing lies in the world, on a grid line, away from the point
    /// before it and further along the ray.
    pub proof fn lemma_crossing_after(&self, cur: Point, dir: Vector)
        requires
            self.wf(),
        ensures
            self.crossing_after(cur, dir) matches Some(p) ==> {
                &&& p != cur
                &&& self.in_bounds(p.x as int, p.y as int)
                &&& self.on_grid_line(p)
                &&& progress(cur, p, dir) > 0
            },
    {
        if dir.x != 0 || dir.y != 0 {
            self.lemma_step(cur, dir);
        }
    }

    /// A crossing lies on the ray through the point before it, up to
    /// rounding: it is less than one world unit away from that ray.
    pub proof fn lemma_crossing_near_ray(&self, cur: Point, dir: Vector)
        requires
            self.wf(),
        ensures
            self.crossing_after(cur, dir) matches Some(p) ==> {
                let off = cross(p.x - cur.x, p.y - cur.y, dir.x as int, dir.y as int);
                off * off < dot(dir.x as int, dir.y as int, dir.x as int, dir.y as int)
            },
    {
        if let Some(p) = self.crossing_after(cur, dir) {
            let cw = self.spec_cell_width() as int;
            let ch = self.spec_cell_height() as int;
            let dx = dir.x as int;
            let dy = dir.y as int;
            let next_x = next_line(cur.x as int, dx, cw);
            let next_y = next_line(cur.y as int, dy, ch);
            let (x, y) = self.step(cur, dir);
            let off = cross(x - cur.x, y - cur.y, dx, dy);
            lemma_next_line(cur.x as int, dx, cw);
            lemma_next_line(cur.y as int, dy, ch);
            if self.on_corner(cur) {
                if dx > 0 {
                    assert(x - cur.x == 1 && y - cur.y == 0);
                    assert(off == 1 * dy - 0 * dx);
                } else if dx < 0 {
                    assert(x - cur.x == -1 && y - cur.y == 0);
                    assert(off == (-1) * dy - 0 * dx);
                } else if dy > 0 {
                    assert(x - cur.x == 0 && y - cur.y == 1);
                    assert(off == 0 * dy - 1 * dx);
                } else {
                    assert(x - cur.x == 0 && y - cur.y == -1);
                    assert(off == 0 * dy - (-1) * dx);
                }
                assert(off * off < dx * dx + dy * dy) by (nonlinear_arith)
                    requires
                        (dx != 0 && (off == dy || off == -dy)) || (dx == 0 && dy != 0 && off == 0),
                ;
            } else if x_first(next_x - cur.x, next_y - cur.y, dir) {
                let gain = slope_offset(dy, next_x - cur.x, dx);
                lemma_slope_offset(dy, next_x - cur.x, dx);
                assert(off == -(gain * dx - dy * (next_x - cur.x))) by (nonlinear_arith)
                    requires
                        off == (next_x - cur.x) * dy - gain * dx,
                ;
                assert(off * off < dx * dx + dy * dy) by (nonlinear_arith)
                    requires
                        abs(off) < abs(dx),
                ;
            } else {
                let gain = slope_offset(dx, next_y - cur.y, dy);
                lemma_slope_offset(dx, next_y - cur.y, dy);
                assert(off == gain * dy - dx * (next_y - cur.y)) by (nonlinear_arith)
                    requires
                        off == gain * dy - (next_y - cur.y) * dx,
                ;
                assert(off * off < dx * dx + dy * dy) by (nonlinear_arith)
                    requires
                        abs(off) < abs(dy),
                ;
            }
        }
    }

    /// Every crossing of a ray is the next crossing of the one before it,
    /// and the first is the next crossing of the origin.
    pub proof fn lemma_crossings_chain(&self, origin: Point, dir: Vector, i: int)
        requires
            self.wf(),
            0 <= i < self.crossings(origin, dir).len(),
        ensures
            self.crossing_after(
                if i == 0 {
                    origin
                } else {
                    self.crossings(origin, dir)[i - 1]
                },
                dir,
            ) == Some(self.crossings(origin, dir)[i]),
        decreases i,
    {
        let first = self.crossing_after(origin, dir)->Some_0;
        assert(self.crossings(origin, dir) =~= seq![first] + self.crossings(first, dir));
        if i > 0 {
            self.lemma_crossings_chain(first, dir, i - 1);
        }
    }

    /// The crossing after a crossing of a ray is the ray's next crossing,
    /// and a crossing without one is the ray's last.
    pub proof fn lemma_crossings_extend(&self, origin: Point, dir: Vector, i: int)
        requires
            self.wf(),
            0 <= i < self.crossings(origin, dir).len(),
        ensures
            match self.crossing_after(self.crossings(origin, dir)[i], dir) {
                Some(p) => i + 1 < self.crossings(origin, dir).len() && self.crossings(
                    origin,
                    dir,
                )[i + 1] == p,
                None => i + 1 == self.crossings(origin, dir).len(),
            },
        decreases i,
    {
        let first = self.crossing_after(origin, dir)->Some_0;
        let rest = self.crossings(first, dir);
        assert(self.crossings(origin, dir) =~= seq![first] + rest);
        if i == 0 {
            match self.crossing_after(first, dir) {
                Some(p) => {
                    assert(rest =~= seq![p] + self.crossings(p, dir));
                },
                None => {},
            }
        } else {
            self.lemma_crossings_extend(first, dir, i - 1);
        }
    }

    /// Every crossing of a ray lies strictly beyond the origin along the ray.
    pub proof fn lemma_crossings_beyond_origin(&self, origin: Point, dir: Vector, i: int)
        requires
            self.wf(),
            0 <= i < self.crossings(origin, dir).len(),
        ensures
            0 < progress(origin, self.crossings(origin, dir)[i], dir),
        decreases i,
    {
        let cs = self.crossings(origin, dir);
        self.lemma_crossings_chain(origin, dir, i);
        if i == 0 {
            self.lemma_crossing_after(origin, dir);
        } else {
            self.lemma_crossing_after(cs[i - 1], dir);
            self.lemma_crossings_beyond_origin(origin, dir, i - 1);
            assert(progress(origin, cs[i], dir) == progress(origin, cs[i - 1], dir) + progress(
                cs[i - 1],
                cs[i],
                dir,
            )) by (nonlinear_arith);
        }
    }

    /// A ray never turns back: of two of its crossings the later one lies
    /// strictly further from the origin along the ray.
    pub proof fn lemma_crossings_advance(&self, origin: Point, dir: Vector, i: int, j: int)
        requires
            self.wf(),
            0 <= i < j < self.crossings(origin, dir).len(),
        ensures
            progress(origin, self.crossings(origin, dir)[i], dir) < progress(
                origin,
                self.crossings(origin, dir)[j],
                dir,
            ),
        decreases j,
    {
        let cs = self.crossings(origin, dir);
        self.lemma_crossings_chain(origin, dir, j);
        self.lemma_crossing_after(cs[j - 1], dir);
        assert(progress(origin, cs[j], dir) == progress(origin, cs[j - 1], dir) + progress(
            cs[j - 1],
            cs[j],
            dir,
        )) by (nonlinear_arith);
        if i < j - 1 {
            self.lemma_crossings_advance(origin, dir, i, j - 1);
        }
    }

    /// Every crossing of a ray lies in the world and on a grid line.
    pub proof fn lemma_crossings_on_grid(&self, origin: Point, dir: Vector, i: int)
        requires
            self.wf(),
            0 <= i < self.crossings(origin, dir).len(),
        ensures
            self.in_bounds(
                self.crossings(origin, dir)[i].x as int,
                self.crossings(origin, dir)[i].y as int,
            ),
            self.on_grid_line(self.crossings(origin, dir)[i]),
    {
        let cs = self.crossings(origin, dir);
        self.lemma_crossings_chain(origin, dir, i);
        if i == 0 {
            self.lemma_crossing_after(origin, dir);
        } else {
            self.lemma_crossing_after(cs[i - 1], dir);
        }
    }

    /// The cell behind the grid line at `p`, as seen by a ray with direction
    /// `dir`, and the orientation of that line. A point on a vertical line
    /// counts as a crossing of that line, whether or not it lies on a
    /// horizontal line too; its row is then the one that holds `p.y`.
    pub open spec fn cell_and_side(&self, p: Point, dir: Vector) -> (int, int, Side) {
        let cw = self.spec_cell_width() as int;
        let ch = self.spec_cell_height() as int;
        if self.on_vertical_line(p.x as int) {
            (far_index(dir.x as int, p.x as int, cw), p.y as int / ch, Side::X)
        } else {
            (p.x as int / cw, far_index(dir.y as int, p.y as int, ch), Side::Y)
        }
    }

    /// Whether the cell behind the crossing at `p` is a wall.
    pub open spec fn is_wall_at(&self, p: Point, dir: Vector) -> bool {
        let (col, row, side) = self.cell_and_side(p, dir);
        self.spec_grid().value_at(col, row) > 0
    }

    /// Whether `h` says of its point what the grid holds behind it.
    pub open spec fn describes(&self, h: Hit, dir: Vector) -> bool {
        &&& (h.col as int, h.row as int, h.side) == self.cell_and_side(h.point, dir)
        &&& h.value == self.spec_grid().value_at(h.col as int, h.row as int)
    }

    /// Whether `h` is the first wall that the ray from `origin` strikes: one
    /// of its crossings, with a wall behind it and none behind any earlier
    /// crossing.
    pub open spec fn is_first_hit(&self, origin: Point, dir: Vector, h: Hit) -> bool {
        let cs = self.crossings(origin, dir);
        exists|i: int|
            {
                &&& 0 <= i < cs.len()
                &&& #[trigger] cs[i] == h.point
                &&& self.describes(h, dir)
                &&& h.value > 0
                &&& forall|k: int| 0 <= k < i ==> !self.is_wall_at(#[trigger] cs[k], dir)
            }
    }

    /// Whether the ray from `origin` leaves the world without striking a wall.
    pub open spec fn no_hit(&self, origin: Point, dir: Vector) -> bool {
        let cs = self.crossings(origin, dir);
        forall|k: int| 0 <= k < cs.len() ==> !self.is_wall_at(#[trigger] cs[k], dir)
    }

    /// A ray has at most one first hit, and none if it strikes no wall.
    pub proof fn lemma_first_hit_unique(&self, origin: Point, dir: Vector, a: Hit, b: Hit)
        requires
            self.is_first_hit(origin, dir, a),
        ensures
            !self.no_hit(origin, dir),
            self.is_first_hit(origin, dir, b) ==> a == b,
    {
        let cs = self.crossings(origin, dir);
        let i = choose|i: int|
            {
                &&& 0 <= i < cs.len()
                &&& #[trigger] cs[i] == a.point
                &&& self.describes(a, dir)
                &&& a.value > 0
                &&& forall|k: int| 0 <= k < i ==> !self.is_wall_at(#[trigger] cs[k], dir)
            };
        assert(self.is_wall_at(cs[i], dir));
        if self.is_first_hit(origin, dir, b) {
            let j = choose|j: int|
                {
                    &&& 0 <= j < cs.len()
                    &&& #[trigger] cs[j] == b.point
                    &&& self.describes(b, dir)
                    &&& b.value > 0
                    &&& forall|k: int| 0 <= k < j ==> !self.is_wall_at(#[trigger] cs[k], dir)
                };
            assert(self.is_wall_at(cs[j], dir));
            assert(i == j);
        }
    }

    /// The next point at which the ray from `current` with direction `dir`
    /// crosses a grid line, or `None` where that point lies outside the
    /// world. The point differs from `current` and lies further along the ray.
    pub fn next_crossing(&self, current: Point, dir: Vector) -> (r: Option<Point>)
        requires
            self.wf(),
        ensures
            r == self.crossing_after(current, dir),
            r matches Some(p) ==> {
                &&& p != current
                &&& self.in_bounds(p.x as int, p.y as int)
                &&& self.on_grid_line(p)
                &&& progress(current, p, dir) > 0
            },
    {
        if dir.x == 0 && dir.y == 0 {
            return None;
        }
        let cw: i32 = self.cell_width();
        let ch: i32 = self.cell_height();
        let x: i64 = current.x as i64;
        let y: i64 = current.y as i64;
        let tx: i64;
        let ty: i64;
        if floor_mod(x, cw as i64) == 0 && floor_mod(y, ch as i64) == 0 {
            if dir.x > 0 {
                tx = x + 1;
                ty = y;
            } else if dir.x < 0 {
                tx = x - 1;
                ty = y;
            } else if dir.y > 0 {
                tx = x;
                ty = y + 1;
            } else {
                tx = x;
                ty = y - 1;
            }
        } else {
            let next_x: i64 = generate_next(current.x, dir.x, cw);
            let next_y: i64 = generate_next(current.y, dir.y, ch);
            proof {
                lemma_next_line(x as int, dir.x as int, cw as int);
                lemma_next_line(y as int, dir.y as int, ch as int);
            }
            let sx: i64 = next_x - x;
            let sy: i64 = next_y - y;
            let ax: i64 = if sx < 0 {
                -sx
            } else {
                sx
            };
            let ay: i64 = if sy < 0 {
                -sy
            } else {
                sy
            };
            let mx: i64 = magnitude(dir.x);
            let my: i64 = magnitude(dir.y);
            assert(0 <= ax * my <= 0x4000_0000_0000_0000 && 0 <= ay * mx <= 0x4000_0000_0000_0000)
                by (nonlinear_arith)
                requires
                    0 <= ax <= 0x8000_0000,
                    0 <= ay <= 0x8000_0000,
                    0 <= mx <= 0x8000_0000,
                    0 <= my <= 0x8000_0000,
            ;
            if dir.x != 0 && (dir.y == 0 || ax * my < ay * mx) {
                tx = next_x;
                ty = y + follow_slope(dir.y, sx, dir.x);
            } else {
                tx = x + follow_slope(dir.x, sy, dir.y);
                ty = next_y;
            }
        }
        proof {
            self.lemma_step(current, dir);
        }
        if self.contains(tx, ty) {
            Some(Point { x: tx as i32, y: ty as i32 })
        } else {
            None
        }
    }

    /// The cell that a ray with direction `dir` enters at the crossing
    /// `point`, and the orientation of the line that it crosses there.
    pub fn resolve(&self, point: Point, dir: Vector) -> (r: (usize, usize, Side))
        requires
            self.wf(),
            self.in_bounds(point.x as int, point.y as int),
            self.on_grid_line(point),
        ensures
            (r.0 as int, r.1 as int, r.2) == self.cell_and_side(point, dir),
    {
        let cw: i32 = self.cell_width();
        let ch: i32 = self.cell_height();
        if point.x % cw == 0 {
            let j: i32 = point.y / ch;
            assert(0 <= j) by (nonlinear_arith)
                requires
                    point.y >= 0,
                    ch > 0,
                    j == point.y as int / ch as int,
            ;
            (get_corresponding_index(dir.x, point.x, cw), j as usize, Side::X)
        } else {
            let i: i32 = point.x / cw;
            assert(0 <= i) by (nonlinear_arith)
                requires
                    point.x >= 0,
                    cw > 0,
                    i == point.x as int / cw as int,
            ;
            (i as usize, get_corresponding_index(dir.y, point.y, ch), Side::Y)
        }
    }

    /// All crossings of the ray from `origin` with direction `dir`, in the
    /// order in which the ray makes them.
    pub fn trace(&self, origin: Point, dir: Vector) -> (r: Vec<Point>)
        requires
            self.wf(),
        ensures
            r@ == self.crossings(origin, dir),
    {
        let ghost cs = self.crossings(origin, dir);
        let mut found: Vec<Point> = Vec::new();
        let mut current = origin;
        loop
            invariant
                self.wf(),
                cs == self.crossings(origin, dir),
                found@.len() <= cs.len(),
                found@ =~= cs.subrange(0, found@.len() as int),
                self.crossings(current, dir) =~= cs.subrange(found@.len() as int, cs.len() as int),
            decreases cs.len() - found@.len(),
        {
            let ghost n = found@.len() as int;
            match self.next_crossing(current, dir) {
                None => {
                    assert(cs.subrange(n, cs.len() as int).len() == 0);
                    assert(found@ =~= cs);
                    return found;
                },
                Some(point) => {
                    assert(self.crossings(current, dir) =~= seq![point] + self.crossings(
                        point,
                        dir,
                    ));
                    assert(cs.subrange(n, cs.len() as int)[0] == point);
                    assert(self.crossings(point, dir) =~= cs.subrange(n + 1, cs.len() as int)) by {
                        let rest = self.crossings(point, dir);
                        let tail = cs.subrange(n, cs.len() as int);
                        assert(tail.len() == 1 + rest.len());
                        assert forall|k: int| 0 <= k < rest.len() implies rest[k] == cs[n + 1 + k] by {
                            assert(tail[k + 1] == (seq![point] + rest)[k + 1]);
                        }
                    }
                    found.push(point);
                    current = point;
                },
            }
        }
    }

    /// Follows the ray from `origin` with direction `dir` from crossing to
    /// crossing and returns the first wall that it strikes, or `None` if it
    /// leaves the world before it strikes one.
    pub fn cast(&self, origin: Point, dir: Vector) -> (r: Option<Hit>)
        requires
            self.wf(),
        ensures
            match r {
                Some(h) => self.is_first_hit(origin, dir, h) && self.in_bounds(
                    h.point.x as int,
                    h.point.y as int,
                ),
                None => self.no_hit(origin, dir),
            },
    {
        let ghost cs = self.crossings(origin, dir);
        let ghost mut n: int = 0;
        let mut current = origin;
        loop
            invariant
                self.wf(),
                cs == self.crossings(origin, dir),
                0 <= n <= cs.len(),
                self.crossings(current, dir) =~= cs.subrange(n, cs.len() as int),
                forall|k: int| 0 <= k < n ==> !self.is_wall_at(#[trigger] cs[k], dir),
            decreases cs.len() - n,
        {
            match self.next_crossing(current, dir) {
                None => {
                    assert(cs.subrange(n, cs.len() as int).len() == 0);
                    return None;
                },
                Some(point) => {
                    assert(self.crossings(current, dir) =~= seq![point] + self.crossings(
                        point,
                        dir,
                    ));
                    assert(cs.subrange(n, cs.len() as int)[0] == point);
                    assert(self.crossings(point, dir) =~= cs.subrange(n + 1, cs.len() as int)) by {
                        let rest = self.crossings(point, dir);
                        let tail = cs.subrange(n, cs.len() as int);
                        assert(tail.len() == 1 + rest.len());
                        assert forall|k: int| 0 <= k < rest.len() implies rest[k] == cs[n + 1 + k] by {
                            assert(tail[k + 1] == (seq![point] + rest)[k + 1]);
                        }
                    }
                    let (i, j, side) = self.resolve(point, dir);
                    let value: i32 = self.grid().get_cell_value(i, j);
                    if value > 0 {
                        let hit = Hit { col: i, row: j, side, point, value };
                        assert(cs[n] == hit.point);
                        return Some(hit);
                    }
                    current = point;
                    proof {
                        n = n + 1;
                    }
                },
            }
        }
    }
}

} // verus!
