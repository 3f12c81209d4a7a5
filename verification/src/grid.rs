//! The table model: a grid of cells, row 0 being the header.

use vstd::prelude::*;

verus! {

/// A cell is its text.
pub type Cell = Seq<char>;

/// A row is its cells in column order.
pub type Row = Seq<Cell>;

/// A table is its rows in input order.
pub type Grid = Seq<Row>;

/// Every row has as many cells as the first one.
pub open spec fn rectangular(grid: Grid) -> bool {
    forall|i: int| 0 <= i < grid.len() ==> (#[trigger] grid[i]).len() == grid[0].len()
}

/// The number of columns: the length of the header row, 0 without rows.
pub open spec fn columns(grid: Grid) -> nat {
    if grid.len() == 0 {
        0
    } else {
        grid[0].len()
    }
}

/// A table can be rendered when it has a header, a data row and a column.
pub open spec fn renderable(grid: Grid) -> bool {
    grid.len() >= 2 && columns(grid) >= 1
}

/// Whether the table has at least two rows and one column.
pub fn is_renderable(rows: &[Vec<String>]) -> (ok: bool)
    ensures
        ok == renderable(rows.deep_view()),
{
    rows.len() > 1 && rows[0].len() > 0
}

/// A table of one row, or without columns, cannot be rendered.
pub proof fn lemma_small_table_rejected(grid: Grid)
    requires
        grid.len() <= 1 || columns(grid) == 0,
    ensures
        !renderable(grid),
{
}

} // verus!
