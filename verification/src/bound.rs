//! How many crossings a ray can make: at most two for every grid line in
//! front of its origin, of which the second leaves a corner of the grid.

use vstd::prelude::*;
use vstd::arithmetic::div_mod::{
    lemma_div_is_ordered, lemma_fundamental_div_mod, lemma_fundamental_div_mod_converse,
};
use crate::geometry::{Point, Vector};
use crate::traversal::{lemma_next_line, lemma_slope_offset, next_line, x_first};
use crate::world::World;

verus! {

/// The number of grid lines on one axis that lie strictly in front of `c`
/// and inside `[0, extent]`, for lines `w` apart and a ray that moves by `d`
/// on that axis.
pub open spec fn lines_ahead(c: int, d: int, w: int, extent: int) -> int {
    if d > 0 {
        extent / w - c / w
    } else if d < 0 {
        (c - 1) / w + 1
    } else {
        0
    }
}

/// A ray that has moved from `c` to `to` has no more lines in front of it
/// than before, and at least one less where it has reached a line. Inside
/// the extent the number is not negative.
pub proof fn lemma_lines_ahead(c: int, to: int, d: int, w: int, extent: int)
    requires
        w > 0,
        d > 0 ==> c <= to,
        d < 0 ==> to <= c,
        d == 0 ==> to == c,
    ensures
        lines_ahead(to, d, w, extent) <= lines_ahead(c, d, w, extent),
        to != c && to % w == 0 ==> lines_ahead(to, d, w, extent) < lines_ahead(c, d, w, extent),
        0 <= to <= extent ==> lines_ahead(to, d, w, extent) >= 0,
{
    let k = to / w;
    lemma_fundamental_div_mod(to, w);
    if d > 0 {
        lemma_div_is_ordered(c, to, w);
        if to != c && to % w == 0 {
            lemma_fundamental_div_mod(c, w);
            assert(k > c / w) by (nonlinear_arith)
                requires
                    to == w * k,
                    c < to,
                    c == w * (c / w) + c % w,
                    0 <= c % w,
                    w > 0,
            ;
        }
        if 0 <= to <= extent {
            lemma_div_is_ordered(to, extent, w);
        }
    } else if d < 0 {
        lemma_div_is_ordered(to - 1, c - 1, w);
        if to != c && to % w == 0 {
            assert(to - 1 == (k - 1) * w + (w - 1)) by (nonlinear_arith)
                requires
                    to == w * k,
            ;
            lemma_fundamental_div_mod_converse(to - 1, w, k - 1, w - 1);
            lemma_div_is_ordered(to, c - 1, w);
        }
        if 0 <= to {
            lemma_fundamental_div_mod_converse(-1, w, -1, w - 1);
            lemma_div_is_ordered(-1, to - 1, w);
        }
    }
}

impl World {
    /// The number of grid lines in front of `(x, y)`, vertical and horizontal.
    pub open spec fn grid_lines_ahead(&self, x: int, y: int, dir: Vector) -> int {
        lines_ahead(x, dir.x as int, self.spec_cell_width() as int, self.spec_width() as int)
            + lines_ahead(y, dir.y as int, self.spec_cell_height() as int, self.spec_height() as int)
    }

    /// The most crossings that a ray at `(x, y)` can still make: two for
    /// every grid line in front of it, and one to leave a corner.
    pub open spec fn crossings_ahead(&self, x: int, y: int, dir: Vector) -> int {
        2 * self.grid_lines_ahead(x, y, dir) + if self.on_vertical_line(x)
            && self.on_horizontal_line(y) {
            1int
        } else {
            0int
        }
    }

    /// With every crossing a ray has fewer crossings ahead.
    pub proof fn lemma_crossings_ahead(&self, cur: Point, dir: Vector)
        requires
            self.wf(),
        ensures
            self.crossing_after(cur, dir) matches Some(p) ==> 0 <= self.crossings_ahead(
                p.x as int,
                p.y as int,
                dir,
            ) < self.crossings_ahead(cur.x as int, cur.y as int, dir),
    {
        if let Some(p) = self.crossing_after(cur, dir) {
            let cw = self.spec_cell_width() as int;
            let ch = self.spec_cell_height() as int;
            let dx = dir.x as int;
            let dy = dir.y as int;
            let next_x = next_line(cur.x as int, dx, cw);
            let next_y = next_line(cur.y as int, dy, ch);
            let (x, y) = self.step(cur, dir);
            lemma_next_line(cur.x as int, dx, cw);
            lemma_next_line(cur.y as int, dy, ch);
            if self.on_corner(cur) {
            } else if x_first(next_x - cur.x, next_y - cur.y, dir) {
                lemma_slope_offset(dy, next_x - cur.x, dx);
            } else {
                lemma_slope_offset(dx, next_y - cur.y, dy);
            }
            lemma_lines_ahead(cur.x as int, x, dx, cw, self.spec_width() as int);
            lemma_lines_ahead(cur.y as int, y, dy, ch, self.spec_height() as int);
        }
    }

    /// A ray makes at most two crossings for every grid line in front of
    /// its origin, and one more from an origin on a corner of the grid.
    pub proof fn lemma_crossings_count(&self, origin: Point, dir: Vector)
        requires
            self.wf(),
        ensures
            self.crossings(origin, dir).len() > 0 ==> self.crossings(origin, dir).len()
                <= self.crossings_ahead(origin.x as int, origin.y as int, dir),
        decreases self.crossings(origin, dir).len(),
    {
        if let Some(p) = self.crossing_after(origin, dir) {
            self.lemma_crossings_ahead(origin, dir);
            assert(self.crossings(origin, dir) =~= seq![p] + self.crossings(p, dir));
            self.lemma_crossings_count(p, dir);
        }
    }
}

} // verus!
