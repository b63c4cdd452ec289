//! The grid of wall codes.

use vstd::prelude::*;

verus! {

/// A rectangular grid of wall codes, held row by row. Code `0` is an empty
/// cell; a positive code is a wall of that kind.
pub struct Grid {
    cells: Vec<Vec<i32>>,
}

/// The rows of `cells` as sequences.
pub open spec fn rows_of(cells: Vec<Vec<i32>>) -> Seq<Seq<i32>> {
    Seq::new(cells@.len(), |r: int| cells@[r]@)
}

/// Whether `rows` has at least one row and one column, and all rows are of one length.
pub open spec fn rectangular(rows: Seq<Seq<i32>>) -> bool {
    &&& rows.len() >= 1
    &&& rows[0].len() >= 1
    &&& forall|r: int| 0 <= r < rows.len() ==> (#[trigger] rows[r]).len() == rows[0].len()
}

impl View for Grid {
    type V = Seq<Seq<i32>>;

    closed spec fn view(&self) -> Seq<Seq<i32>> {
        rows_of(self.cells)
    }
}

impl Grid {
    /// The grid's invariant: it is rectangular and not empty.
    pub open spec fn wf(&self) -> bool {
        rectangular(self@)
    }

    /// The number of rows.
    pub open spec fn row_count(&self) -> nat {
        self@.len()
    }

    /// The number of columns.
    pub open spec fn column_count(&self) -> nat {
        if self@.len() > 0 {
            self@[0].len()
        } else {
            0
        }
    }

    /// The code of the cell in column `col` and row `row`; `0` outside the grid.
    pub open spec fn value_at(&self, col: int, row: int) -> int {
        if 0 <= row < self@.len() && 0 <= col < self@[row].len() {
            self@[row][col] as int
        } else {
            0
        }
    }

    /// Makes a grid of the given rows, if they form a rectangle with at
    /// least one cell.
    pub fn new(cells: Vec<Vec<i32>>) -> (r: Option<Grid>)
        ensures
            r is Some <==> rectangular(rows_of(cells)),
            r matches Some(g) ==> g@ == rows_of(cells) && g.wf(),
    {
        if cells.len() == 0 {
            return None;
        }
        let width: usize = cells[0].len();
        if width == 0 {
            return None;
        }
        let mut r: usize = 0;
        while r < cells.len()
            invariant
                r <= cells@.len(),
                cells@.len() >= 1,
                width == cells@[0]@.len(),
                forall|k: int| 0 <= k < r ==> (#[trigger] rows_of(cells)[k]).len() == width,
            decreases cells@.len() - r,
        {
            if cells[r].len() != width {
                assert(rows_of(cells)[r as int].len() != rows_of(cells)[0].len());
                return None;
            }
            r = r + 1;
        }
        Some(Grid { cells })
    }

    /// The number of rows.
    pub fn rows(&self) -> (n: usize)
        ensures
            n == self.row_count(),
    {
        self.cells.len()
    }

    /// The number of columns.
    pub fn cols(&self) -> (n: usize)
        ensures
            n == self.column_count(),
    {
        if self.cells.len() == 0 {
            0
        } else {
            self.cells[0].len()
        }
    }

    /// The code of the cell in column `i` and row `j`. A cell outside the
    /// grid counts as empty.
    pub fn get_cell_value(&self, i: usize, j: usize) -> (v: i32)
        ensures
            v == self.value_at(i as int, j as int),
    {
        if j < self.cells.len() {
            if i < self.cells[j].len() {
                return self.cells[j][i];
            }
        }
        0
    }
}

} // verus!
