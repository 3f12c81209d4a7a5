//! Markdown tables from delimiter-separated text.
//!
//! Lines of text are split on a literal separator into a rectangular grid of
//! trimmed cells, and the grid is rendered as a Markdown table, either
//! column-aligned or compact. Every function carries a contract over the
//! character sequences involved.

pub mod text;
pub mod grid;
pub mod render;
pub mod padding;
pub mod parse;
pub mod config;
pub mod convert;
pub mod shape;
