//! Rendering a grid as a Markdown table, compact or column-aligned.

use vstd::prelude::*;
use crate::grid::{columns, rectangular, renderable, Grid, Row};
use crate::padding::{pad_cell, pad_to_width, plain, shown_width, shown_width_of};
use crate::text::{dashes, join, join_strings, run};

verus! {

/// The lines of the compact table: the header, one `---` per column, then the
/// data rows, the cells of each line separated by `|`.
pub open spec fn minimized_lines(grid: Grid) -> Seq<Seq<char>> {
    seq![
        join(grid[0], seq!['|']),
        join(Seq::new(columns(grid), |j: int| seq!['-', '-', '-']), seq!['|']),
    ] + Seq::new((grid.len() - 1) as nat, |i: int| join(grid[i + 1], seq!['|']))
}

/// The compact table: its lines separated by newlines, none after the last.
pub open spec fn minimized(grid: Grid) -> Seq<char> {
    join(minimized_lines(grid), seq!['\n'])
}

/// Renders the table without padding.
pub fn format_minimized(rows: &[Vec<String>]) -> (out: String)
    requires
        renderable(rows.deep_view()),
    ensures
        out@ == minimized(rows.deep_view()),
{
    let ghost grid = rows.deep_view();
    let mut lines: Vec<String> = Vec::new();
    let header = rows[0].as_slice();
    lines.push(join_strings(header, "|"));
    let mut tokens: Vec<String> = Vec::new();
    let mut j: usize = 0;
    while j < rows[0].len()
        invariant
            rows.len() >= 2,
            j <= rows[0].len(),
            tokens.len() == j,
            forall|k: int| 0 <= k < j ==> (#[trigger] tokens[k])@ == seq!['-', '-', '-'],
        decreases rows[0].len() - j,
    {
        let token = String::from_str("---");
        proof {
            reveal_strlit("---");
            assert(token@ =~= seq!['-', '-', '-']);
        }
        tokens.push(token);
        j += 1;
    }
    let tokens = tokens.as_slice();
    lines.push(join_strings(tokens, "|"));
    proof {
        reveal_strlit("|");
        assert("|"@ =~= seq!['|']);
        assert(header.deep_view() =~= grid[0]);
        assert(tokens.deep_view() =~= Seq::new(columns(grid), |k: int| seq!['-', '-', '-']));
    }
    let mut i: usize = 1;
    while i < rows.len()
        invariant
            1 <= i <= rows.len(),
            grid == rows.deep_view(),
            "|"@ == seq!['|'],
            lines.len() == i + 1,
            forall|k: int| 0 <= k <= i ==> (#[trigger] lines[k])@ == minimized_lines(grid)[k],
        decreases rows.len() - i,
    {
        let row = rows[i].as_slice();
        proof {
            assert(row.deep_view() =~= grid[i as int]);
        }
        lines.push(join_strings(row, "|"));
        i += 1;
    }
    let lines = lines.as_slice();
    proof {
        reveal_strlit("\n");
        assert("\n"@ =~= seq!['\n']);
        assert(lines.deep_view() =~= minimized_lines(grid));
    }
    join_strings(lines, "\n")
}

/// The width of column `col` over the first `n` rows: the greatest display
/// length of a cell there, and at least 1.
pub open spec fn width_over(grid: Grid, col: int, n: nat) -> nat
    decreases n,
{
    if n == 0 {
        1
    } else {
        let above = width_over(grid, col, (n - 1) as nat);
        let here = shown_width(grid[n - 1][col]);
        if here > above {
            here
        } else {
            above
        }
    }
}

/// The width of column `col`: the greatest display length of a cell of the
/// column, header included, and at least 1.
pub open spec fn column_width(grid: Grid, col: int) -> nat {
    width_over(grid, col, grid.len())
}

/// The widths of all columns, in column order.
pub open spec fn widths_of(grid: Grid) -> Seq<nat> {
    Seq::new(columns(grid), |col: int| column_width(grid, col))
}

/// Machine widths as numbers.
pub open spec fn as_nats(widths: Seq<usize>) -> Seq<nat> {
    Seq::new(widths.len(), |j: int| widths[j] as nat)
}

/// Computes the width of every column of a rectangular table.
pub fn column_widths(data: &[Vec<String>]) -> (widths: Vec<usize>)
    requires
        rectangular(data.deep_view()),
    ensures
        as_nats(widths@) == widths_of(data.deep_view()),
        widths.len() == columns(data.deep_view()),
        forall|col: int| 0 <= col < widths.len() ==> widths[col] >= 1,
{
    let ghost grid = data.deep_view();
    let mut widths: Vec<usize> = Vec::new();
    if data.len() == 0 {
        proof {
            assert(as_nats(widths@) =~= widths_of(grid));
        }
        return widths;
    }
    let cols = data[0].len();
    let mut col: usize = 0;
    while col < cols
        invariant
            grid == data.deep_view(),
            rectangular(grid),
            data.len() > 0,
            cols == data[0].len(),
            col <= cols,
            widths.len() == col,
            forall|k: int| 0 <= k < col ==> widths[k] as nat == column_width(grid, k),
        decreases cols - col,
    {
        let mut width: usize = 1;
        let mut row: usize = 0;
        while row < data.len()
            invariant
                grid == data.deep_view(),
                rectangular(grid),
                data.len() > 0,
                cols == data[0].len(),
                col < cols,
                row <= data.len(),
                width as nat == width_over(grid, col as int, row as nat),
            decreases data.len() - row,
        {
            assert(grid[row as int].len() == grid[0].len());
            let len = shown_width_of(data[row][col].as_str());
            assert(len as nat == shown_width(grid[row as int][col as int]));
            if len > width {
                width = len;
            }
            row += 1;
        }
        widths.push(width);
        col += 1;
    }
    proof {
        assert(as_nats(widths@) =~= widths_of(grid));
        assert forall|k: int| 0 <= k < widths.len() implies widths[k] >= 1 by {
            lemma_width_floor(grid, k);
            assert(widths[k] as nat == as_nats(widths@)[k]);
            assert(widths_of(grid)[k] == column_width(grid, k));
        }
    }
    widths
}

/// Every cell padded on the right to the width of its column.
pub open spec fn pad_grid(grid: Grid, widths: Seq<nat>) -> Grid {
    Seq::new(
        grid.len(),
        |i: int| Seq::new(grid[i].len(), |j: int| pad_cell(grid[i][j], widths[j])),
    )
}

/// Pads every cell of a table to the width given for its column.
pub fn pad_cells(data: &[Vec<String>], widths: &[usize]) -> (cells: Vec<Vec<String>>)
    requires
        forall|i: int|
            0 <= i < data.deep_view().len() ==> (#[trigger] data.deep_view()[i]).len()
                <= widths@.len(),
    ensures
        cells.deep_view() == pad_grid(data.deep_view(), as_nats(widths@)),
{
    let ghost grid = data.deep_view();
    let ghost target = pad_grid(grid, as_nats(widths@));
    proof {
        assert forall|r: int| 0 <= r < data.len() implies (#[trigger] data[r]).len()
            <= widths.len() by {
            assert(grid[r].len() == data[r].len());
        }
    }
    let mut cells: Vec<Vec<String>> = Vec::new();
    let mut i: usize = 0;
    while i < data.len()
        invariant
            grid == data.deep_view(),
            target == pad_grid(grid, as_nats(widths@)),
            forall|r: int| 0 <= r < data.len() ==> (#[trigger] data[r]).len() <= widths.len(),
            i <= data.len(),
            cells.len() == i,
            forall|r: int| 0 <= r < i ==> (#[trigger] cells[r]).deep_view() == target[r],
        decreases data.len() - i,
    {
        let mut row: Vec<String> = Vec::new();
        let mut j: usize = 0;
        while j < data[i].len()
            invariant
                grid == data.deep_view(),
                target == pad_grid(grid, as_nats(widths@)),
                i < data.len(),
                data[i as int].len() <= widths.len(),
                j <= data[i as int].len(),
                row.len() == j,
                forall|c: int| 0 <= c < j ==> (#[trigger] row[c])@ == target[i as int][c],
            decreases data[i as int].len() - j,
        {
            row.push(pad_to_width(data[i][j].as_str(), widths[j]));
            j += 1;
        }
        proof {
            assert(row.deep_view() =~= target[i as int]);
        }
        cells.push(row);
        i += 1;
    }
    proof {
        assert(cells.deep_view() =~= target);
    }
    cells
}

/// A row of the aligned table: its cells between `| ` and ` |`, separated
/// by ` | `.
pub open spec fn framed(cells: Row) -> Seq<char> {
    seq!['|', ' '] + join(cells, seq![' ', '|', ' ']) + seq![' ', '|']
}

/// The line under the header: for each column as many dashes as it is wide,
/// between `|-` and `-|`, separated by `-|-`.
pub open spec fn rule(widths: Seq<nat>) -> Seq<char> {
    seq!['|', '-'] + join(Seq::new(widths.len(), |j: int| run('-', widths[j])), seq!['-', '|', '-'])
        + seq!['-', '|']
}

/// The lines of the aligned table over cells that are padded already: the
/// header, the line of dashes, then the data rows.
pub open spec fn pretty_lines(cells: Grid, widths: Seq<nat>) -> Seq<Seq<char>> {
    seq![framed(cells[0]), rule(widths)] + Seq::new(
        (cells.len() - 1) as nat,
        |i: int| framed(cells[i + 1]),
    )
}

/// The aligned table over padded cells: its lines separated by newlines, none
/// after the last.
pub open spec fn pretty_layout(cells: Grid, widths: Seq<nat>) -> Seq<char> {
    join(pretty_lines(cells, widths), seq!['\n'])
}

/// The aligned table: every cell padded to its column's width, then laid out.
pub open spec fn pretty(grid: Grid) -> Seq<char> {
    pretty_layout(pad_grid(grid, widths_of(grid)), widths_of(grid))
}

/// One row between its enclosing pipes.
fn frame_row(cells: &[String]) -> (out: String)
    ensures
        out@ == framed(cells.deep_view()),
{
    let mut out = String::from_str("| ");
    out.append(join_strings(cells, " | ").as_str());
    out.append(" |");
    proof {
        reveal_strlit("| ");
        reveal_strlit(" | ");
        reveal_strlit(" |");
        assert("| "@ =~= seq!['|', ' ']);
        assert(" | "@ =~= seq![' ', '|', ' ']);
        assert(" |"@ =~= seq![' ', '|']);
    }
    out
}

/// The line of dashes under the header.
fn rule_line(widths: &[usize]) -> (out: String)
    ensures
        out@ == rule(as_nats(widths@)),
{
    let mut tokens: Vec<String> = Vec::new();
    let mut j: usize = 0;
    while j < widths.len()
        invariant
            j <= widths.len(),
            tokens.len() == j,
            forall|k: int| 0 <= k < j ==> (#[trigger] tokens[k])@ == run('-', widths[k] as nat),
        decreases widths.len() - j,
    {
        tokens.push(dashes(widths[j]));
        j += 1;
    }
    let tokens = tokens.as_slice();
    let mut out = String::from_str("|-");
    out.append(join_strings(tokens, "-|-").as_str());
    out.append("-|");
    proof {
        reveal_strlit("|-");
        reveal_strlit("-|-");
        reveal_strlit("-|");
        assert("|-"@ =~= seq!['|', '-']);
        assert("-|-"@ =~= seq!['-', '|', '-']);
        assert("-|"@ =~= seq!['-', '|']);
        let nats = as_nats(widths@);
        assert(tokens.deep_view() =~= Seq::new(nats.len(), |k: int| run('-', nats[k])));
    }
    out
}

/// Lays out a table whose cells are padded already, with the line of dashes
/// drawn for the given widths.
pub fn layout_pretty(cells: &[Vec<String>], widths: &[usize]) -> (out: String)
    requires
        cells.len() >= 1,
    ensures
        out@ == pretty_layout(cells.deep_view(), as_nats(widths@)),
{
    let ghost grid = cells.deep_view();
    let ghost target = pretty_lines(grid, as_nats(widths@));
    let mut lines: Vec<String> = Vec::new();
    let header = cells[0].as_slice();
    proof {
        assert(header.deep_view() =~= grid[0]);
    }
    lines.push(frame_row(header));
    lines.push(rule_line(widths));
    let mut i: usize = 1;
    while i < cells.len()
        invariant
            1 <= i <= cells.len(),
            grid == cells.deep_view(),
            target == pretty_lines(grid, as_nats(widths@)),
            lines.len() == i + 1,
            forall|k: int| 0 <= k <= i ==> (#[trigger] lines[k])@ == target[k],
        decreases cells.len() - i,
    {
        let row = cells[i].as_slice();
        proof {
            assert(row.deep_view() =~= grid[i as int]);
        }
        lines.push(frame_row(row));
        i += 1;
    }
    let lines = lines.as_slice();
    proof {
        reveal_strlit("\n");
        assert("\n"@ =~= seq!['\n']);
        assert(lines.deep_view() =~= target);
    }
    join_strings(lines, "\n")
}

/// Renders the table with every column padded to its width.
pub fn format_pretty(data: &[Vec<String>]) -> (out: String)
    requires
        renderable(data.deep_view()),
        rectangular(data.deep_view()),
    ensures
        out@ == pretty(data.deep_view()),
{
    let widths = column_widths(data);
    proof {
        assert(as_nats(widths@).len() == widths_of(data.deep_view()).len());
    }
    let cells = pad_cells(data, widths.as_slice());
    proof {
        assert(cells.deep_view().len() == data.deep_view().len());
    }
    layout_pretty(cells.as_slice(), widths.as_slice())
}

/// The width over the first `n` rows is at least 1 and at least the display
/// length of each cell there, and it is 1 or the display length of one of
/// those cells.
pub proof fn lemma_width_over_is_max(grid: Grid, col: int, n: nat)
    ensures
        width_over(grid, col, n) >= 1,
        forall|i: int| 0 <= i < n ==> shown_width(#[trigger] grid[i][col]) <= width_over(grid, col, n),
        width_over(grid, col, n) == 1 || exists|i: int|
            0 <= i < n && shown_width(#[trigger] grid[i][col]) == width_over(grid, col, n),
    decreases n,
{
    if n > 0 {
        let before = (n - 1) as nat;
        lemma_width_over_is_max(grid, col, before);
        if shown_width(grid[n - 1][col]) > width_over(grid, col, before) {
            assert(shown_width(grid[n - 1][col]) == width_over(grid, col, n));
        } else if width_over(grid, col, before) != 1 {
            let i = choose|i: int|
                0 <= i < before && shown_width(#[trigger] grid[i][col]) == width_over(
                    grid,
                    col,
                    before,
                );
            assert(shown_width(grid[i][col]) == width_over(grid, col, n));
        }
    }
}

/// No column is narrower than 1, whatever its cells hold: a column of empty
/// cells has width 1. A column is as wide as the widest of its cells where
/// that is wider.
pub proof fn lemma_width_floor(grid: Grid, col: int)
    ensures
        column_width(grid, col) >= 1,
        forall|i: int| 0 <= i < grid.len() ==> shown_width(#[trigger] grid[i][col]) <= column_width(grid, col),
        column_width(grid, col) == 1 || exists|i: int|
            0 <= i < grid.len() && shown_width(#[trigger] grid[i][col]) == column_width(grid, col),
        (forall|i: int| 0 <= i < grid.len() ==> (#[trigger] grid[i][col]).len() == 0)
            ==> column_width(grid, col) == 1,
{
    lemma_width_over_is_max(grid, col, grid.len());
    if forall|i: int| 0 <= i < grid.len() ==> (#[trigger] grid[i][col]).len() == 0 {
        if column_width(grid, col) != 1 {
            let i = choose|i: int|
                0 <= i < grid.len() && shown_width(#[trigger] grid[i][col]) == column_width(grid, col);
            assert(grid[i][col].len() == 0);
            assert(plain(grid[i][col]));
        }
    }
}

/// Every width in the list of column widths is at least 1, and there is one
/// for each column.
pub proof fn lemma_widths_floor(grid: Grid)
    ensures
        widths_of(grid).len() == columns(grid),
        forall|col: int| 0 <= col < columns(grid) ==> (#[trigger] widths_of(grid)[col]) >= 1,
{
    assert forall|col: int| 0 <= col < columns(grid) implies (#[trigger] widths_of(grid)[col])
        >= 1 by {
        lemma_width_floor(grid, col);
    }
}

} // verus!
