//! The whole way from lines of text to the Markdown table.

use vstd::prelude::*;
use crate::config::{Config, Style};
use crate::grid::{is_renderable, rectangular, renderable, Grid};
use crate::parse::{lemma_parsed_rectangular, lemma_parsed_renderable, parse_table_data, parsed};
use crate::render::{format_minimized, format_pretty, minimized, pretty};

verus! {

/// Why no table was produced.
#[derive(Clone, Copy, Debug, PartialEq, Eq, Structural)]
pub enum TableError {
    /// The input gives fewer than two rows, or no column.
    InputTooSmall,
}

impl TableError {
    /// The message for the user.
    pub fn message(&self) -> (text: String)
        ensures
            text@ == "Input requires at least 2 rows and 1 column."@,
    {
        match self {
            TableError::InputTooSmall => String::from_str(
                "Input requires at least 2 rows and 1 column.",
            ),
        }
    }
}

/// The table in the given style.
pub open spec fn rendered(grid: Grid, style: Style) -> Seq<char> {
    match style {
        Style::Minimized => minimized(grid),
        Style::Pretty => pretty(grid),
    }
}

/// Renders a table in the given style. The text has no newline at its end.
pub fn render(table: &[Vec<String>], style: Style) -> (out: String)
    requires
        renderable(table.deep_view()),
        rectangular(table.deep_view()),
    ensures
        out@ == rendered(table.deep_view(), style),
{
    match style {
        Style::Minimized => format_minimized(table),
        Style::Pretty => format_pretty(table),
    }
}

/// Renders a table only if it can be rendered. A table with a header, a data
/// row and a column comes out in the style asked for; a table of one row or
/// none, or without columns, is rejected whatever the style.
pub fn try_render(table: &[Vec<String>], style: Style) -> (result: Result<String, TableError>)
    requires
        rectangular(table.deep_view()),
    ensures
        result is Ok <==> renderable(table.deep_view()),
        match result {
            Ok(text) => text@ == rendered(table.deep_view(), style),
            Err(error) => error == TableError::InputTooSmall,
        },
{
    if !is_renderable(table) {
        return Err(TableError::InputTooSmall);
    }
    Ok(render(table, style))
}

/// Parses the lines and renders the table that they hold, with one newline
/// at the end. Lines that give fewer than two rows or no column are
/// rejected, and nothing is rendered.
pub fn convert(lines: &[String], config: &Config) -> (result: Result<String, TableError>)
    ensures
        result is Ok <==> lines.len() >= 2,
        match result {
            Ok(text) => {
                &&& renderable(parsed(lines.deep_view(), config.separator@))
                &&& text@ == rendered(parsed(lines.deep_view(), config.separator@), config.style())
                    + seq!['\n']
            },
            Err(error) => {
                &&& !renderable(parsed(lines.deep_view(), config.separator@))
                &&& error == TableError::InputTooSmall
            },
        },
{
    proof {
        lemma_parsed_renderable(lines.deep_view(), config.separator@);
    }
    let table = parse_table_data(lines, config.separator.as_str());
    proof {
        lemma_parsed_rectangular(lines.deep_view(), config.separator@);
        reveal_strlit("\n");
        assert("\n"@ =~= seq!['\n']);
    }
    match try_render(table.as_slice(), config.style()) {
        Ok(mut text) => {
            text.append("\n");
            Ok(text)
        },
        Err(error) => Err(error),
    }
}

} // verus!
