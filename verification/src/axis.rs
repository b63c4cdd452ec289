//! Rays along an axis. Such a ray meets the grid lines across its way one
//! after the other, each at the ray's own height or width, and strikes the
//! first wall in its row or column, through the line on the near side of it.

use vstd::prelude::*;
use vstd::arithmetic::div_mod::{lemma_fundamental_div_mod, lemma_fundamental_div_mod_converse};
use crate::geometry::{Point, Side, Vector};
use crate::traversal::Hit;
use crate::world::World;

verus! {

/// A multiple of `w` has remainder zero and gives back its factor, and the
/// next multiple is `w` further.
pub proof fn lemma_multiple(k: int, w: int)
    requires
        w > 0,
    ensures
        (k * w) % w == 0,
        (k * w) / w == k,
        (k + 1) * w == k * w + w,
        (k - 1) * w == k * w - w,
{
    assert(k * w == k * w + 0 && (k + 1) * w == k * w + w && (k - 1) * w == k * w - w)
        by (nonlinear_arith);
    lemma_fundamental_div_mod_converse(k * w, w, k, 0);
}

/// A number without its remainder is its quotient times the divisor.
pub proof fn lemma_floor_multiple(x: int, w: int)
    requires
        w > 0,
    ensures
        x - x % w == (x / w) * w,
        0 <= x % w < w,
        x >= 0 ==> x / w >= 0,
{
    lemma_fundamental_div_mod(x, w);
    assert(w * (x / w) == (x / w) * w) by (nonlinear_arith);
    if x >= 0 {
        assert(x / w >= 0) by (nonlinear_arith)
            requires
                x >= 0,
                w > 0,
                x == w * (x / w) + x % w,
                x % w < w,
        ;
    }
}

/// The last multiple of `w` below `x` is `w` times the quotient of `x - 1`.
pub proof fn lemma_multiple_below(x: int, w: int)
    requires
        w > 0,
    ensures
        ((x - 1) / w) * w == if x % w == 0 {
            x - w
        } else {
            x - x % w
        },
        x >= 1 ==> (x - 1) / w >= 0,
{
    let q = x / w;
    let r = x % w;
    lemma_fundamental_div_mod(x, w);
    if r == 0 {
        assert(x - 1 == (q - 1) * w + (w - 1) && (q - 1) * w == x - w) by (nonlinear_arith)
            requires
                x == w * q + r,
                r == 0,
        ;
        lemma_fundamental_div_mod_converse(x - 1, w, q - 1, w - 1);
    } else {
        assert(x - 1 == q * w + (r - 1) && q * w == x - r) by (nonlinear_arith)
            requires
                x == w * q + r,
        ;
        lemma_fundamental_div_mod_converse(x - 1, w, q, r - 1);
    }
    lemma_floor_multiple(x - 1, w);
}

impl World {
    /// The column that holds `x`.
    pub open spec fn column_at(&self, x: int) -> int {
        x / (self.spec_cell_width() as int)
    }

    /// The row that holds `y`.
    pub open spec fn row_at(&self, y: int) -> int {
        y / (self.spec_cell_height() as int)
    }

    /// The vertical grid line on the left of column `index`.
    pub open spec fn vertical_line(&self, index: int) -> int {
        index * self.spec_cell_width()
    }

    /// The horizontal grid line on top of row `index`.
    pub open spec fn horizontal_line(&self, index: int) -> int {
        index * self.spec_cell_height()
    }

    /// A ray to the right crosses the vertical lines to the right of its
    /// origin, one after the other, at its own height.
    pub proof fn lemma_crossings_right(&self, origin: Point, dx: i32, k: int)
        requires
            self.wf(),
            self.in_bounds(origin.x as int, origin.y as int),
            !self.on_horizontal_line(origin.y as int),
            dx > 0,
            0 <= k,
            self.vertical_line(self.column_at(origin.x as int) + 1 + k) <= self.spec_width(),
        ensures
            k < self.crossings(origin, Vector { x: dx, y: 0 }).len(),
            self.crossings(origin, Vector { x: dx, y: 0 })[k] == (Point {
                x: self.vertical_line(self.column_at(origin.x as int) + 1 + k) as i32,
                y: origin.y,
            }),
        decreases k,
    {
        let dir = Vector { x: dx, y: 0 };
        let cw = self.spec_cell_width() as int;
        let q = self.column_at(origin.x as int);
        let cs = self.crossings(origin, dir);
        lemma_floor_multiple(origin.x as int, cw);
        lemma_multiple(q + k, cw);
        lemma_multiple(q + k + 1, cw);
        assert((q + k) * cw >= 0) by (nonlinear_arith)
            requires
                q + k >= 0,
                cw > 0,
        ;
        if k == 0 {
            let p = Point { x: self.vertical_line(q + 1) as i32, y: origin.y };
            assert(self.step(origin, dir) == (self.vertical_line(q + 1), origin.y as int));
            assert(self.crossing_after(origin, dir) == Some(p));
            assert(cs =~= seq![p] + self.crossings(p, dir));
        } else {
            self.lemma_crossings_right(origin, dx, k - 1);
            let prev = cs[k - 1];
            let p = Point { x: self.vertical_line(q + 1 + k) as i32, y: origin.y };
            assert(prev.x == (q + k) * cw);
            assert(self.step(prev, dir) == (self.vertical_line(q + 1 + k), origin.y as int));
            assert(self.crossing_after(prev, dir) == Some(p));
            self.lemma_crossings_extend(origin, dir, k - 1);
        }
    }

    /// A ray to the right strikes the first wall to the right of its
    /// origin's column, through the vertical line on the left of the wall.
    pub proof fn lemma_wall_to_the_right(&self, origin: Point, dx: i32, col: int)
        requires
            self.wf(),
            self.in_bounds(origin.x as int, origin.y as int),
            !self.on_horizontal_line(origin.y as int),
            dx > 0,
            self.column_at(origin.x as int) < col,
            self.vertical_line(col) <= self.spec_width(),
            self.spec_grid().value_at(col, self.row_at(origin.y as int)) > 0,
            forall|c: int|
                self.column_at(origin.x as int) < c < col ==> #[trigger] self.spec_grid().value_at(
                    c,
                    self.row_at(origin.y as int),
                ) <= 0,
        ensures
            self.is_first_hit(
                origin,
                Vector { x: dx, y: 0 },
                Hit {
                    col: col as usize,
                    row: self.row_at(origin.y as int) as usize,
                    side: Side::X,
                    point: Point { x: self.vertical_line(col) as i32, y: origin.y },
                    value: self.spec_grid().value_at(col, self.row_at(origin.y as int)) as i32,
                },
            ),
    {
        let dir = Vector { x: dx, y: 0 };
        let cw = self.spec_cell_width() as int;
        let ch = self.spec_cell_height() as int;
        let q = self.column_at(origin.x as int);
        let row = self.row_at(origin.y as int);
        let cs = self.crossings(origin, dir);
        let i = col - q - 1;
        let hit = Hit {
            col: col as usize,
            row: row as usize,
            side: Side::X,
            point: Point { x: self.vertical_line(col) as i32, y: origin.y },
            value: self.spec_grid().value_at(col, row) as i32,
        };
        lemma_floor_multiple(origin.x as int, cw);
        lemma_floor_multiple(origin.y as int, ch);
        lemma_multiple(col, cw);
        assert(0 <= col * cw) by (nonlinear_arith)
            requires
                col >= 0,
                cw > 0,
        ;
        self.lemma_crossings_right(origin, dx, i);
        assert(cs[i] == hit.point);
        assert(self.cell_and_side(hit.point, dir) == (col, row, Side::X));
        assert(self.describes(hit, dir));
        assert forall|k: int| 0 <= k < i implies !self.is_wall_at(#[trigger] cs[k], dir) by {
            lemma_multiple(q + 1 + k, cw);
            assert((q + 1 + k) * cw <= col * cw) by (nonlinear_arith)
                requires
                    q + 1 + k <= col,
                    cw > 0,
            ;
            self.lemma_crossings_right(origin, dx, k);
            assert(self.cell_and_side(cs[k], dir) == (q + 1 + k, row, Side::X));
        }
    }

    /// A ray to the left crosses the vertical lines to the left of its
    /// origin, one after the other, at its own height.
    pub proof fn lemma_crossings_left(&self, origin: Point, dx: i32, k: int)
        requires
            self.wf(),
            self.in_bounds(origin.x as int, origin.y as int),
            !self.on_horizontal_line(origin.y as int),
            dx < 0,
            0 <= k <= self.column_at(origin.x - 1),
        ensures
            k < self.crossings(origin, Vector { x: dx, y: 0 }).len(),
            self.crossings(origin, Vector { x: dx, y: 0 })[k] == (Point {
                x: self.vertical_line(self.column_at(origin.x - 1) - k) as i32,
                y: origin.y,
            }),
        decreases k,
    {
        let dir = Vector { x: dx, y: 0 };
        let cw = self.spec_cell_width() as int;
        let m = self.column_at(origin.x - 1);
        let cs = self.crossings(origin, dir);
        lemma_multiple_below(origin.x as int, cw);
        lemma_floor_multiple(origin.x as int, cw);
        lemma_multiple(m - k, cw);
        lemma_multiple(m - k + 1, cw);
        assert(0 <= (m - k) * cw <= m * cw) by (nonlinear_arith)
            requires
                0 <= m - k <= m,
                cw > 0,
        ;
        if k == 0 {
            let p = Point { x: self.vertical_line(m) as i32, y: origin.y };
            assert(self.step(origin, dir) == (self.vertical_line(m), origin.y as int));
            assert(self.crossing_after(origin, dir) == Some(p));
            assert(cs =~= seq![p] + self.crossings(p, dir));
        } else {
            self.lemma_crossings_left(origin, dx, k - 1);
            let prev = cs[k - 1];
            let p = Point { x: self.vertical_line(m - k) as i32, y: origin.y };
            assert(prev.x == (m - k + 1) * cw);
            assert(self.step(prev, dir) == (self.vertical_line(m - k), origin.y as int));
            assert(self.crossing_after(prev, dir) == Some(p));
            self.lemma_crossings_extend(origin, dir, k - 1);
        }
    }

    /// A ray to the left strikes the first wall to the left of the first
    /// line that it crosses, through the vertical line on the right of the wall.
    pub proof fn lemma_wall_to_the_left(&self, origin: Point, dx: i32, col: int)
        requires
            self.wf(),
            self.in_bounds(origin.x as int, origin.y as int),
            !self.on_horizontal_line(origin.y as int),
            dx < 0,
            0 <= col < self.column_at(origin.x - 1),
            self.spec_grid().value_at(col, self.row_at(origin.y as int)) > 0,
            forall|c: int|
                col < c < self.column_at(origin.x - 1) ==> #[trigger] self.spec_grid().value_at(
                    c,
                    self.row_at(origin.y as int),
                ) <= 0,
        ensures
            self.is_first_hit(
                origin,
                Vector { x: dx, y: 0 },
                Hit {
                    col: col as usize,
                    row: self.row_at(origin.y as int) as usize,
                    side: Side::X,
                    point: Point { x: self.vertical_line(col + 1) as i32, y: origin.y },
                    value: self.spec_grid().value_at(col, self.row_at(origin.y as int)) as i32,
                },
            ),
    {
        let dir = Vector { x: dx, y: 0 };
        let cw = self.spec_cell_width() as int;
        let ch = self.spec_cell_height() as int;
        let m = self.column_at(origin.x - 1);
        let row = self.row_at(origin.y as int);
        let cs = self.crossings(origin, dir);
        let i = m - col - 1;
        let hit = Hit {
            col: col as usize,
            row: row as usize,
            side: Side::X,
            point: Point { x: self.vertical_line(col + 1) as i32, y: origin.y },
            value: self.spec_grid().value_at(col, row) as i32,
        };
        lemma_multiple_below(origin.x as int, cw);
        lemma_floor_multiple(origin.x as int, cw);
        lemma_floor_multiple(origin.y as int, ch);
        lemma_floor_multiple(origin.x - 1, cw);
        lemma_multiple(col + 1, cw);
        assert(0 <= col + 1 <= (col + 1) * cw <= m * cw) by (nonlinear_arith)
            requires
                0 <= col + 1 <= m,
                cw > 0,
        ;
        self.lemma_crossings_left(origin, dx, i);
        assert(cs[i] == hit.point);
        assert(self.cell_and_side(hit.point, dir) == (col, row, Side::X));
        assert(self.describes(hit, dir));
        assert forall|k: int| 0 <= k < i implies !self.is_wall_at(#[trigger] cs[k], dir) by {
            lemma_multiple(m - k, cw);
            assert(0 <= (m - k) * cw <= m * cw) by (nonlinear_arith)
                requires
                    0 <= m - k <= m,
                    cw > 0,
            ;
            self.lemma_crossings_left(origin, dx, k);
            assert(self.cell_and_side(cs[k], dir) == (m - k - 1, row, Side::X));
        }
    }

    /// A ray down the world crosses the horizontal lines below its origin,
    /// one after the other, at its own width.
    pub proof fn lemma_crossings_down(&self, origin: Point, dy: i32, k: int)
        requires
            self.wf(),
            self.in_bounds(origin.x as int, origin.y as int),
            !self.on_vertical_line(origin.x as int),
            dy > 0,
            0 <= k,
            self.horizontal_line(self.row_at(origin.y as int) + 1 + k) <= self.spec_height(),
        ensures
            k < self.crossings(origin, Vector { x: 0, y: dy }).len(),
            self.crossings(origin, Vector { x: 0, y: dy })[k] == (Point {
                x: origin.x,
                y: self.horizontal_line(self.row_at(origin.y as int) + 1 + k) as i32,
            }),
        decreases k,
    {
        let dir = Vector { x: 0, y: dy };
        let ch = self.spec_cell_height() as int;
        let q = self.row_at(origin.y as int);
        let cs = self.crossings(origin, dir);
        lemma_floor_multiple(origin.y as int, ch);
        lemma_multiple(q + k, ch);
        lemma_multiple(q + k + 1, ch);
        assert((q + k) * ch >= 0) by (nonlinear_arith)
            requires
                q + k >= 0,
                ch > 0,
        ;
        if k == 0 {
            let p = Point { x: origin.x, y: self.horizontal_line(q + 1) as i32 };
            assert(self.step(origin, dir) == (origin.x as int, self.horizontal_line(q + 1)));
            assert(self.crossing_after(origin, dir) == Some(p));
            assert(cs =~= seq![p] + self.crossings(p, dir));
        } else {
            self.lemma_crossings_down(origin, dy, k - 1);
            let prev = cs[k - 1];
            let p = Point { x: origin.x, y: self.horizontal_line(q + 1 + k) as i32 };
            assert(prev.y == (q + k) * ch);
            assert(self.step(prev, dir) == (origin.x as int, self.horizontal_line(q + 1 + k)));
            assert(self.crossing_after(prev, dir) == Some(p));
            self.lemma_crossings_extend(origin, dir, k - 1);
        }
    }

    /// A ray down the world strikes the first wall below its origin's row,
    /// through the horizontal line on top of the wall.
    pub proof fn lemma_wall_below(&self, origin: Point, dy: i32, row: int)
        requires
            self.wf(),
            self.in_bounds(origin.x as int, origin.y as int),
            !self.on_vertical_line(origin.x as int),
            dy > 0,
            self.row_at(origin.y as int) < row,
            self.horizontal_line(row) <= self.spec_height(),
            self.spec_grid().value_at(self.column_at(origin.x as int), row) > 0,
            forall|r: int|
                self.row_at(origin.y as int) < r < row ==> #[trigger] self.spec_grid().value_at(
                    self.column_at(origin.x as int),
                    r,
                ) <= 0,
        ensures
            self.is_first_hit(
                origin,
                Vector { x: 0, y: dy },
                Hit {
                    col: self.column_at(origin.x as int) as usize,
                    row: row as usize,
                    side: Side::Y,
                    point: Point { x: origin.x, y: self.horizontal_line(row) as i32 },
                    value: self.spec_grid().value_at(self.column_at(origin.x as int), row) as i32,
                },
            ),
    {
        let dir = Vector { x: 0, y: dy };
        let cw = self.spec_cell_width() as int;
        let ch = self.spec_cell_height() as int;
        let q = self.row_at(origin.y as int);
        let col = self.column_at(origin.x as int);
        let cs = self.crossings(origin, dir);
        let i = row - q - 1;
        let hit = Hit {
            col: col as usize,
            row: row as usize,
            side: Side::Y,
            point: Point { x: origin.x, y: self.horizontal_line(row) as i32 },
            value: self.spec_grid().value_at(col, row) as i32,
        };
        lemma_floor_multiple(origin.x as int, cw);
        lemma_floor_multiple(origin.y as int, ch);
        lemma_multiple(row, ch);
        assert(0 <= row <= row * ch) by (nonlinear_arith)
            requires
                row >= 0,
                ch > 0,
        ;
        self.lemma_crossings_down(origin, dy, i);
        assert(cs[i] == hit.point);
        assert(self.cell_and_side(hit.point, dir) == (col, row, Side::Y));
        assert(self.describes(hit, dir));
        assert forall|k: int| 0 <= k < i implies !self.is_wall_at(#[trigger] cs[k], dir) by {
            lemma_multiple(q + 1 + k, ch);
            assert(0 <= (q + 1 + k) * ch <= row * ch) by (nonlinear_arith)
                requires
                    0 <= q + 1 + k <= row,
                    ch > 0,
            ;
            self.lemma_crossings_down(origin, dy, k);
            assert(self.cell_and_side(cs[k], dir) == (col, q + 1 + k, Side::Y));
        }
    }

    /// A ray up the world crosses the horizontal lines above its origin,
    /// one after the other, at its own width.
    pub proof fn lemma_crossings_up(&self, origin: Point, dy: i32, k: int)
        requires
            self.wf(),
            self.in_bounds(origin.x as int, origin.y as int),
            !self.on_vertical_line(origin.x as int),
            dy < 0,
            0 <= k <= self.row_at(origin.y - 1),
        ensures
            k < self.crossings(origin, Vector { x: 0, y: dy }).len(),
            self.crossings(origin, Vector { x: 0, y: dy })[k] == (Point {
                x: origin.x,
                y: self.horizontal_line(self.row_at(origin.y - 1) - k) as i32,
            }),
        decreases k,
    {
        let dir = Vector { x: 0, y: dy };
        let ch = self.spec_cell_height() as int;
        let m = self.row_at(origin.y - 1);
        let cs = self.crossings(origin, dir);
        lemma_multiple_below(origin.y as int, ch);
        lemma_floor_multiple(origin.y as int, ch);
        lemma_multiple(m - k, ch);
        lemma_multiple(m - k + 1, ch);
        assert(0 <= (m - k) * ch <= m * ch) by (nonlinear_arith)
            requires
                0 <= m - k <= m,
                ch > 0,
        ;
        if k == 0 {
            let p = Point { x: origin.x, y: self.horizontal_line(m) as i32 };
            assert(self.step(origin, dir) == (origin.x as int, self.horizontal_line(m)));
            assert(self.crossing_after(origin, dir) == Some(p));
            assert(cs =~= seq![p] + self.crossings(p, dir));
        } else {
            self.lemma_crossings_up(origin, dy, k - 1);
            let prev = cs[k - 1];
            let p = Point { x: origin.x, y: self.horizontal_line(m - k) as i32 };
            assert(prev.y == (m - k + 1) * ch);
            assert(self.step(prev, dir) == (origin.x as int, self.horizontal_line(m - k)));
            assert(self.crossing_after(prev, dir) == Some(p));
            self.lemma_crossings_extend(origin, dir, k - 1);
        }
    }

    /// A ray up the world strikes the first wall above the first line that
    /// it crosses, through the horizontal line below the wall.
    pub proof fn lemma_wall_above(&self, origin: Point, dy: i32, row: int)
        requires
            self.wf(),
            self.in_bounds(origin.x as int, origin.y as int),
            !self.on_vertical_line(origin.x as int),
            dy < 0,
            0 <= row < self.row_at(origin.y - 1),
            self.spec_grid().value_at(self.column_at(origin.x as int), row) > 0,
            forall|r: int|
                row < r < self.row_at(origin.y - 1) ==> #[trigger] self.spec_grid().value_at(
                    self.column_at(origin.x as int),
                    r,
                ) <= 0,
        ensures
            self.is_first_hit(
                origin,
                Vector { x: 0, y: dy },
                Hit {
                    col: self.column_at(origin.x as int) as usize,
                    row: row as usize,
                    side: Side::Y,
                    point: Point { x: origin.x, y: self.horizontal_line(row + 1) as i32 },
                    value: self.spec_grid().value_at(self.column_at(origin.x as int), row) as i32,
                },
            ),
    {
        let dir = Vector { x: 0, y: dy };
        let cw = self.spec_cell_width() as int;
        let ch = self.spec_cell_height() as int;
        let m = self.row_at(origin.y - 1);
        let col = self.column_at(origin.x as int);
        let cs = self.crossings(origin, dir);
        let i = m - row - 1;
        let hit = Hit {
            col: col as usize,
            row: row as usize,
            side: Side::Y,
            point: Point { x: origin.x, y: self.horizontal_line(row + 1) as i32 },
            value: self.spec_grid().value_at(col, row) as i32,
        };
        lemma_multiple_below(origin.y as int, ch);
        lemma_floor_multiple(origin.x as int, cw);
        lemma_floor_multiple(origin.y as int, ch);
        lemma_floor_multiple(origin.y - 1, ch);
        lemma_multiple(row + 1, ch);
        assert(0 <= row + 1 <= (row + 1) * ch <= m * ch) by (nonlinear_arith)
            requires
                0 <= row + 1 <= m,
                ch > 0,
        ;
        self.lemma_crossings_up(origin, dy, i);
        assert(cs[i] == hit.point);
        assert(self.cell_and_side(hit.point, dir) == (col, row, Side::Y));
        assert(self.describes(hit, dir));
        assert forall|k: int| 0 <= k < i implies !self.is_wall_at(#[trigger] cs[k], dir) by {
            lemma_multiple(m - k, ch);
            assert(0 <= (m - k) * ch <= m * ch) by (nonlinear_arith)
                requires
                    0 <= m - k <= m,
                    ch > 0,
            ;
            self.lemma_crossings_up(origin, dy, k);
            assert(self.cell_and_side(cs[k], dir) == (col, m - k - 1, Side::Y));
        }
    }
}

} // verus!
