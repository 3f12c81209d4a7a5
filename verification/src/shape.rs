//! The shape of the rendered text: how many lines it has, how many tokens
//! the line under the header, how it ends, that the aligned form of plain
//! text is aligned, and that the compact form can be read back.

use vstd::prelude::*;
use crate::grid::{columns, rectangular, renderable, Grid, Row};
use crate::padding::{lemma_pad_fills, pad_cell, plain, shown_width};
use crate::parse::{
    cells_of, is_trimmed, is_white_space, lemma_cells_of_join, lemma_pieces_of_join,
    lemma_trim_drops_spaces, lemma_widest_is_max, parsed, pieces, ragged, trimmed, widest,
};
use crate::render::{
    column_width, framed, lemma_width_floor, minimized, minimized_lines, pad_grid, pretty,
    pretty_lines, rule, widths_of,
};
use crate::text::{
    count, free_of, join, lemma_count_concat, lemma_count_join, lemma_count_newlines, lemma_count_run,
    lemma_count_short, lemma_join_free_of, lemma_join_len, lemma_join_without, lemma_total_without, run,
};

verus! {

/// No cell of the table holds a newline.
pub open spec fn single_line(grid: Grid) -> bool {
    forall|i: int, j: int|
        0 <= i < grid.len() && 0 <= j < grid[i].len() ==> count(#[trigger] grid[i][j], '\n') == 0
}

/// The compact table has a line for every row and one under the header,
/// which holds a `---` for every column; where no cell holds a newline, the
/// text holds as many newlines as the table has rows.
pub proof fn lemma_minimized_shape(grid: Grid)
    requires
        renderable(grid),
    ensures
        minimized_lines(grid).len() == grid.len() + 1,
        minimized_lines(grid)[1] == join(
            Seq::new(columns(grid), |j: int| seq!['-', '-', '-']),
            seq!['|'],
        ),
        count(minimized_lines(grid)[1], '|') == columns(grid) - 1,
        single_line(grid) ==> count(minimized(grid), '\n') == grid.len(),
{
    let lines = minimized_lines(grid);
    let tokens = Seq::new(columns(grid), |j: int| seq!['-', '-', '-']);
    lemma_count_short('-', '-', '-', '|');
    lemma_count_short('-', '-', '-', '\n');
    lemma_count_short('|', '|', '|', '|');
    lemma_count_short('|', '|', '|', '\n');
    lemma_total_without(tokens, '|');
    lemma_count_join(tokens, seq!['|'], '|');
    let n = tokens.len() as int;
    let k = count(seq!['|'], '|') as int;
    assert((n - 1) * k == n - 1) by (nonlinear_arith)
        requires
            k == 1,
    ;
    if single_line(grid) {
        assert forall|i: int| 0 <= i < lines.len() implies count(#[trigger] lines[i], '\n')
            == 0 by {
            if i == 1 {
                lemma_join_without(tokens, seq!['|'], '\n');
            } else {
                let r = if i == 0 { 0 } else { i - 1 };
                assert(lines[i] == join(grid[r], seq!['|']));
                lemma_join_without(grid[r], seq!['|'], '\n');
            }
        }
        lemma_count_newlines(lines);
    }
}

/// A row of cells without a newline is a line without one.
proof fn lemma_framed_single_line(cells: Row)
    requires
        forall|j: int| 0 <= j < cells.len() ==> count(#[trigger] cells[j], '\n') == 0,
    ensures
        count(framed(cells), '\n') == 0,
{
    lemma_count_short('|', ' ', ' ', '\n');
    lemma_count_short(' ', '|', ' ', '\n');
    lemma_join_without(cells, seq![' ', '|', ' '], '\n');
    let inner = join(cells, seq![' ', '|', ' ']);
    lemma_count_concat(seq!['|', ' '], inner, '\n');
    lemma_count_concat(seq!['|', ' '] + inner, seq![' ', '|'], '\n');
}

/// The line under the header of the aligned table holds no newline, and one
/// pipe more than there are columns.
proof fn lemma_rule_shape(widths: Seq<nat>)
    requires
        widths.len() >= 1,
    ensures
        count(rule(widths), '\n') == 0,
        count(rule(widths), '|') == widths.len() + 1,
{
    let tokens = Seq::new(widths.len(), |j: int| run('-', widths[j]));
    let sep = seq!['-', '|', '-'];
    assert forall|j: int| 0 <= j < tokens.len() implies count(#[trigger] tokens[j], '\n') == 0
        && count(tokens[j], '|') == 0 by {
        lemma_count_run('-', widths[j], '\n');
        lemma_count_run('-', widths[j], '|');
    }
    lemma_count_short('|', '-', '-', '\n');
    lemma_count_short('-', '|', '-', '\n');
    lemma_count_short('|', '-', '-', '|');
    lemma_count_short('-', '|', '-', '|');
    lemma_join_without(tokens, sep, '\n');
    lemma_total_without(tokens, '|');
    lemma_count_join(tokens, sep, '|');
    let n = tokens.len() as int;
    let k = count(sep, '|') as int;
    assert((n - 1) * k == n - 1) by (nonlinear_arith)
        requires
            k == 1,
    ;
    let inner = join(tokens, sep);
    lemma_count_concat(seq!['|', '-'], inner, '\n');
    lemma_count_concat(seq!['|', '-'] + inner, seq!['-', '|'], '\n');
    lemma_count_concat(seq!['|', '-'], inner, '|');
    lemma_count_concat(seq!['|', '-'] + inner, seq!['-', '|'], '|');
}

/// The aligned table has a line for every row and one under the header,
/// which holds a run of dashes for every column, between pipes; where no cell
/// holds a newline, the text holds as many newlines as the table has rows.
pub proof fn lemma_pretty_shape(grid: Grid)
    requires
        renderable(grid),
    ensures
        pretty_lines(pad_grid(grid, widths_of(grid)), widths_of(grid)).len() == grid.len() + 1,
        pretty_lines(pad_grid(grid, widths_of(grid)), widths_of(grid))[1] == rule(widths_of(grid)),
        widths_of(grid).len() == columns(grid),
        count(rule(widths_of(grid)), '|') == columns(grid) + 1,
        single_line(grid) ==> count(pretty(grid), '\n') == grid.len(),
{
    let widths = widths_of(grid);
    let cells = pad_grid(grid, widths);
    let lines = pretty_lines(cells, widths);
    lemma_rule_shape(widths);
    if single_line(grid) {
        assert forall|i: int| 0 <= i < lines.len() implies count(#[trigger] lines[i], '\n')
            == 0 by {
            if i != 1 {
                let r = if i == 0 { 0 } else { i - 1 };
                assert(lines[i] == framed(cells[r]));
                assert forall|j: int| 0 <= j < cells[r].len() implies count(
                    #[trigger] cells[r][j],
                    '\n',
                ) == 0 by {
                    let text = grid[r][j];
                    assert(cells[r][j] == pad_cell(text, widths[j]));
                    assert(count(text, '\n') == 0);
                    if pad_cell(text, widths[j]) != text {
                        let fill = run(' ', (pad_cell(text, widths[j]).len() - text.len()) as nat);
                        assert(pad_cell(text, widths[j]) =~= text + fill);
                        lemma_count_concat(text, fill, '\n');
                        lemma_count_run(' ', fill.len(), '\n');
                    }
                }
                lemma_framed_single_line(cells[r]);
            }
        }
        lemma_count_newlines(lines);
    }
}

/// Every cell of the table is plain text.
pub open spec fn plain_grid(grid: Grid) -> bool {
    forall|i: int, j: int|
        0 <= i < grid.len() && 0 <= j < grid[i].len() ==> plain(#[trigger] grid[i][j])
}

/// Every padded cell is the cell's text followed by as many spaces as its
/// display length falls short of the column's width; a cell of plain text is
/// then exactly as long as its column is wide.
pub proof fn lemma_pad_to_column(grid: Grid, row: int, col: int)
    requires
        rectangular(grid),
        0 <= row < grid.len(),
        0 <= col < columns(grid),
    ensures
        shown_width(grid[row][col]) <= widths_of(grid)[col],
        pad_grid(grid, widths_of(grid))[row][col] == grid[row][col] + run(
            ' ',
            (widths_of(grid)[col] - shown_width(grid[row][col])) as nat,
        ),
        plain(grid[row][col]) ==> pad_grid(grid, widths_of(grid))[row][col].len() == widths_of(
            grid,
        )[col],
{
    let text = grid[row][col];
    let width = widths_of(grid)[col];
    assert(grid[row].len() == grid[0].len());
    lemma_width_floor(grid, col);
    assert(shown_width(grid[row][col]) <= column_width(grid, col));
    assert(pad_grid(grid, widths_of(grid))[row][col] == pad_cell(text, width));
    lemma_pad_fills(text, width);
}

/// The aligned rendering of a table of plain text is aligned: all its lines,
/// the one under the header too, are equally long.
pub proof fn lemma_pretty_aligned(grid: Grid)
    requires
        renderable(grid),
        rectangular(grid),
        plain_grid(grid),
    ensures
        forall|i: int|
            0 <= i <= grid.len() ==> (#[trigger] pretty_lines(
                pad_grid(grid, widths_of(grid)),
                widths_of(grid),
            )[i]).len() == rule(widths_of(grid)).len(),
{
    let widths = widths_of(grid);
    let cells = pad_grid(grid, widths);
    let lines = pretty_lines(cells, widths);
    let tokens = Seq::new(widths.len(), |j: int| run('-', widths[j]));
    assert forall|i: int| 0 <= i <= grid.len() implies (#[trigger] lines[i]).len() == rule(
        widths,
    ).len() by {
        if i != 1 {
            let r = if i == 0 { 0 } else { i - 1 };
            assert(lines[i] == framed(cells[r]));
            assert(grid[r].len() == grid[0].len());
            assert forall|j: int| 0 <= j < cells[r].len() implies (#[trigger] cells[r][j]).len()
                == tokens[j].len() by {
                lemma_pad_to_column(grid, r, j);
            }
            lemma_join_len(cells[r], tokens, seq![' ', '|', ' '], seq!['-', '|', '-']);
        }
    }
}

/// Every cell of the table is trimmed and free of the pipe and of the
/// newline, so that the compact form parts it from its neighbours.
pub open spec fn clean(grid: Grid) -> bool {
    forall|i: int, j: int|
        0 <= i < grid.len() && 0 <= j < grid[i].len() ==> is_trimmed(#[trigger] grid[i][j])
            && free_of(grid[i][j], '|') && free_of(grid[i][j], '\n')
}

/// The table that the compact form shows: the header, a row of `---`, then
/// the data rows.
pub open spec fn with_rule_row(grid: Grid) -> Grid {
    seq![grid[0], Seq::new(columns(grid), |j: int| seq!['-', '-', '-'])] + grid.skip(1)
}

/// The compact form can be read back: split at its newlines it gives its
/// lines, and these, parsed with the pipe as the separator, give the table
/// again, with the row of `---` under the header.
pub proof fn lemma_minimized_parses_back(grid: Grid)
    requires
        renderable(grid),
        rectangular(grid),
        clean(grid),
    ensures
        pieces(minimized(grid), seq!['\n']) == minimized_lines(grid),
        parsed(minimized_lines(grid), seq!['|']) == with_rule_row(grid),
{
    let lines = minimized_lines(grid);
    let tokens = Seq::new(columns(grid), |j: int| seq!['-', '-', '-']);
    let target = with_rule_row(grid);
    let bar = seq!['|'];
    assert(lines.len() == target.len());
    assert forall|i: int| 0 <= i < lines.len() implies free_of(#[trigger] lines[i], '\n')
        && cells_of(lines[i], bar) == target[i] by {
        let row = target[i];
        if i >= 2 {
            assert(row == grid[i - 1]);
            assert(grid[i - 1].len() == grid[0].len());
        }
        assert(lines[i] == join(row, bar));
        assert forall|j: int| 0 <= j < row.len() implies free_of(#[trigger] row[j], '|')
            && free_of(row[j], '\n') && is_trimmed(row[j]) by {
            if i == 1 {
                assert(row[j] == seq!['-', '-', '-']);
                assert(!is_white_space('-'));
            }
        }
        lemma_join_free_of(row, bar, '\n');
        lemma_cells_of_join(row, '|');
    }
    lemma_pieces_of_join(lines, '\n');
    let raw = ragged(lines, bar);
    assert(raw =~= target);
    lemma_widest_is_max(target);
    assert forall|i: int| 0 <= i < target.len() implies (#[trigger] target[i]).len() == columns(
        grid,
    ) by {
        if i >= 2 {
            assert(target[i] == grid[i - 1]);
            assert(grid[i - 1].len() == grid[0].len());
        }
    }
    assert(widest(target) == columns(grid));
    assert(parsed(lines, bar) =~= target);
}

/// The aligned form ends with the pipe that closes its last row, so never
/// with a newline.
pub proof fn lemma_pretty_ends_with_pipe(grid: Grid)
    requires
        renderable(grid),
    ensures
        pretty(grid).len() > 0,
        pretty(grid).last() == '|',
{
    let widths = widths_of(grid);
    let cells = pad_grid(grid, widths);
    let lines = pretty_lines(cells, widths);
    assert(lines.last() == framed(cells[grid.len() - 1]));
    assert(framed(cells[grid.len() - 1]).last() == '|');
}

/// The compact form ends with its last row, the cells of that row separated
/// by pipes, after a newline: it ends with a newline only where the last row
/// is one empty cell.
pub proof fn lemma_minimized_ends_with_last_row(grid: Grid)
    requires
        renderable(grid),
    ensures
        minimized(grid) == join(minimized_lines(grid).drop_last(), seq!['\n']) + seq!['\n'] + join(
            grid.last(),
            seq!['|'],
        ),
{
    let lines = minimized_lines(grid);
    assert(lines.last() == join(grid[grid.len() - 1], seq!['|']));
}

/// The two forms agree cell by cell: a cell of the aligned form, trimmed, is
/// the cell of the table, which is what the compact form shows.
pub proof fn lemma_padding_trims_away(text: Seq<char>, width: nat)
    requires
        is_trimmed(text),
    ensures
        trimmed(pad_cell(text, width)) == text,
{
    if shown_width(text) < width {
        lemma_trim_drops_spaces(text, (width - shown_width(text)) as nat);
    }
}

} // verus!
