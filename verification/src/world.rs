//! The world: a grid laid over a rectangle of world units.

use vstd::prelude::*;
use crate::geometry::Point;
use crate::grid::Grid;

verus! {

/// The largest width and height of a world, in world units.
pub const COORD_LIMIT: i32 = 0x4000_0000;

/// A grid together with the rectangle `[0, width] x [0, height]` that it
/// covers. Every cell is `cell_width` wide and `cell_height` high, the
/// rectangle's sides divided by the grid's counts and rounded down.
pub struct World {
    grid: Grid,
    width: i32,
    height: i32,
    cell_width: i32,
    cell_height: i32,
}

impl World {
    /// The grid of wall codes.
    pub closed spec fn spec_grid(&self) -> Grid {
        self.grid
    }

    /// The world's width in world units.
    pub closed spec fn spec_width(&self) -> i32 {
        self.width
    }

    /// The world's height in world units.
    pub closed spec fn spec_height(&self) -> i32 {
        self.height
    }

    /// The width of one cell.
    pub closed spec fn spec_cell_width(&self) -> i32 {
        self.cell_width
    }

    /// The height of one cell.
    pub closed spec fn spec_cell_height(&self) -> i32 {
        self.cell_height
    }

    /// The world's invariant: the grid is a rectangle, both sides are within
    /// `COORD_LIMIT`, and a cell is at least one unit wide and high.
    pub open spec fn wf(&self) -> bool {
        &&& self.spec_grid().wf()
        &&& self.spec_width() <= COORD_LIMIT
        &&& self.spec_height() <= COORD_LIMIT
        &&& self.spec_cell_width() == self.spec_width() as int / self.spec_grid().column_count() as int
        &&& self.spec_cell_height() == self.spec_height() as int / self.spec_grid().row_count() as int
        &&& self.spec_cell_width() >= 1
        &&& self.spec_cell_height() >= 1
    }

    /// Whether `(x, y)` lies in the world's rectangle, its border included.
    pub open spec fn in_bounds(&self, x: int, y: int) -> bool {
        0 <= x <= self.spec_width() && 0 <= y <= self.spec_height()
    }

    /// Whether `x` is the coordinate of a vertical grid line.
    pub open spec fn on_vertical_line(&self, x: int) -> bool {
        x % (self.spec_cell_width() as int) == 0
    }

    /// Whether `y` is the coordinate of a horizontal grid line.
    pub open spec fn on_horizontal_line(&self, y: int) -> bool {
        y % (self.spec_cell_height() as int) == 0
    }

    /// Whether `p` lies on a grid line, vertical or horizontal.
    pub open spec fn on_grid_line(&self, p: Point) -> bool {
        self.on_vertical_line(p.x as int) || self.on_horizontal_line(p.y as int)
    }

    /// Whether `p` lies on a vertical and on a horizontal grid line.
    pub open spec fn on_corner(&self, p: Point) -> bool {
        self.on_vertical_line(p.x as int) && self.on_horizontal_line(p.y as int)
    }

    /// Lays `grid` over a rectangle of the given width and height. The
    /// rectangle must give every column and every row at least one unit,
    /// and neither side may exceed `COORD_LIMIT`.
    pub fn new(grid: Grid, width: i32, height: i32) -> (r: Option<World>)
        requires
            grid.wf(),
        ensures
            r is Some <==> grid.column_count() <= width <= COORD_LIMIT && grid.row_count() <= height
                <= COORD_LIMIT,
            r matches Some(w) ==> w.wf() && w.spec_grid() == grid && w.spec_width() == width
                && w.spec_height() == height,
    {
        if width < 1 || width > COORD_LIMIT || height < 1 || height > COORD_LIMIT {
            return None;
        }
        let cols: usize = grid.cols();
        let rows: usize = grid.rows();
        if cols > width as usize || rows > height as usize {
            return None;
        }
        let cell_width: i32 = width / (cols as i32);
        let cell_height: i32 = height / (rows as i32);
        assert(cell_width >= 1 && cell_height >= 1) by (nonlinear_arith)
            requires
                1 <= cols <= width,
                1 <= rows <= height,
                cell_width == width as int / cols as int,
                cell_height == height as int / rows as int,
        ;
        Some(World { grid, width, height, cell_width, cell_height })
    }

    /// The grid of wall codes.
    pub fn grid(&self) -> (g: &Grid)
        ensures
            *g == self.spec_grid(),
    {
        &self.grid
    }

    /// The world's width in world units.
    #[verifier::when_used_as_spec(spec_width)]
    pub fn width(&self) -> (w: i32)
        ensures
            w == self.spec_width(),
    {
        self.width
    }

    /// The world's height in world units.
    #[verifier::when_used_as_spec(spec_height)]
    pub fn height(&self) -> (h: i32)
        ensures
            h == self.spec_height(),
    {
        self.height
    }

    /// The width of one cell.
    #[verifier::when_used_as_spec(spec_cell_width)]
    pub fn cell_width(&self) -> (w: i32)
        ensures
            w == self.spec_cell_width(),
    {
        self.cell_width
    }

    /// The height of one cell.
    #[verifier::when_used_as_spec(spec_cell_height)]
    pub fn cell_height(&self) -> (h: i32)
        ensures
            h == self.spec_cell_height(),
    {
        self.cell_height
    }

    /// Whether `(x, y)` lies in the world's rectangle, its border included.
    pub fn contains(&self, x: i64, y: i64) -> (b: bool)
        ensures
            b == self.in_bounds(x as int, y as int),
    {
        0 <= x && x <= self.width as i64 && 0 <= y && y <= self.height as i64
    }
}

} // verus!
