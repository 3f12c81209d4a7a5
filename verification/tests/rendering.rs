use mdtable::config::{Config, Style};
use mdtable::convert::{convert, render, try_render, TableError};
use mdtable::grid::is_renderable;
use mdtable::render::{column_widths, format_minimized, format_pretty, layout_pretty, pad_cells};
use mdtable::text::{dashes, join_strings};

fn row(items: &[&str]) -> Vec<String> {
    items.iter().map(|s| s.to_string()).collect()
}

fn grid(rows: &[&[&str]]) -> Vec<Vec<String>> {
    rows.iter().map(|r| row(r)).collect()
}

#[test]
fn pretty_aligns_the_columns() {
    let table = grid(&[&["a", "bb", "c"], &["1", "2", "3"]]);
    assert_eq!(
        format_pretty(&table),
        "| a | bb | c |\n|---|----|---|\n| 1 | 2  | 3 |"
    );
}

#[test]
fn minimized_pads_nothing() {
    let table = grid(&[&["a", "bb", "c"], &["1", "2", "3"]]);
    assert_eq!(format_minimized(&table), "a|bb|c\n---|---|---\n1|2|3");
}

#[test]
fn pretty_with_several_data_rows() {
    let table = grid(&[&["name", "n"], &["x", "10"], &["yyyyyy", ""], &["", "7"]]);
    assert_eq!(
        format_pretty(&table),
        "| name   | n  |\n|--------|----|\n| x      | 10 |\n| yyyyyy |    |\n|        | 7  |"
    );
}

#[test]
fn minimized_with_several_data_rows() {
    let table = grid(&[&["name", "n"], &["x", "10"], &["yyyyyy", ""], &["", "7"]]);
    assert_eq!(
        format_minimized(&table),
        "name|n\n---|---\nx|10\nyyyyyy|\n|7"
    );
}

#[test]
fn one_column_is_enclosed_in_pipes() {
    let table = grid(&[&["h"], &["value"]]);
    assert_eq!(format_pretty(&table), "| h     |\n|-------|\n| value |");
    assert_eq!(format_minimized(&table), "h\n---\nvalue");
}

#[test]
fn widths_are_the_longest_cells() {
    let table = grid(&[&["h1", "h2"], &["", "x"]]);
    assert_eq!(column_widths(&table), vec![2, 2]);
    let table = grid(&[&["a", "bb", "c"], &["1", "2", "333"]]);
    assert_eq!(column_widths(&table), vec![1, 2, 3]);
}

#[test]
fn an_empty_column_has_width_one() {
    let table = grid(&[&["", "h"], &["", "x"]]);
    assert_eq!(column_widths(&table), vec![1, 1]);
    assert_eq!(format_pretty(&table), "|   | h |\n|---|---|\n|   | x |");
}

#[test]
fn widths_of_a_table_without_rows_or_columns() {
    assert_eq!(column_widths(&grid(&[])), Vec::<usize>::new());
    assert_eq!(column_widths(&grid(&[&[], &[]])), Vec::<usize>::new());
}

#[test]
fn widths_and_padding_go_by_display_length() {
    let table = grid(&[&["\u{e9}", "b"], &["ab", "\u{65e5}\u{672c}"]]);
    assert_eq!(column_widths(&table), vec![2, 4]);
    assert_eq!(
        format_pretty(&table),
        "| \u{e9}  | b    |\n|----|------|\n| ab | \u{65e5}\u{672c} |"
    );
}

#[test]
fn an_accented_letter_is_one_column_wide() {
    let table = grid(&[&["\u{e9}"], &["a"]]);
    assert_eq!(column_widths(&table), vec![1]);
    assert_eq!(format_pretty(&table), "| \u{e9} |\n|---|\n| a |");
    assert_eq!(format_pretty(&table).chars().count(), 17);
}

#[test]
fn a_column_of_wide_characters_is_drawn_by_its_columns() {
    let table = grid(&[&["\u{65e5}\u{672c}\u{8a9e}", "x"], &["ab", "\u{e9}\u{e8}"]]);
    assert_eq!(column_widths(&table), vec![6, 2]);
    assert_eq!(
        format_pretty(&table),
        "| \u{65e5}\u{672c}\u{8a9e} | x  |\n|--------|----|\n| ab     | \u{e9}\u{e8} |"
    );
}

#[test]
fn small_tables_are_rejected_in_both_styles() {
    for style in [Style::Minimized, Style::Pretty] {
        assert_eq!(try_render(&grid(&[]), style), Err(TableError::InputTooSmall));
        assert_eq!(try_render(&grid(&[&["only"]]), style), Err(TableError::InputTooSmall));
        assert_eq!(try_render(&grid(&[&["a", "b"]]), style), Err(TableError::InputTooSmall));
        assert_eq!(try_render(&grid(&[&[], &[]]), style), Err(TableError::InputTooSmall));
        assert_eq!(try_render(&grid(&[&[], &[], &[]]), style), Err(TableError::InputTooSmall));
    }
    let table = grid(&[&["a"], &["b"]]);
    assert_eq!(try_render(&table, Style::Minimized), Ok("a\n---\nb".to_string()));
    assert_eq!(try_render(&table, Style::Pretty), Ok("| a |\n|---|\n| b |".to_string()));
}

#[test]
fn cells_are_padded_on_the_right_and_never_cut() {
    let table = grid(&[&["abc", ""], &["d", "ef"]]);
    assert_eq!(
        pad_cells(&table, &[2, 4]),
        grid(&[&["abc", "    "], &["d ", "ef  "]])
    );
    assert_eq!(pad_cells(&table, &[0, 0]), table);
}

#[test]
fn layout_draws_the_rule_from_the_widths() {
    let cells = grid(&[&["a ", "b"], &["cc", "d"]]);
    assert_eq!(
        layout_pretty(&cells, &[2, 1]),
        "| a  | b |\n|----|---|\n| cc | d |"
    );
    assert_eq!(layout_pretty(&cells, &[0, 3]), "| a  | b |\n|--|-----|\n| cc | d |");
}

#[test]
fn both_styles_have_a_line_per_row_and_a_token_per_column() {
    let table = grid(&[&["a", "b", "c", "d"], &["1", "2", "3", "4"], &["5", "6", "7", "8"]]);
    let small = format_minimized(&table);
    let lines: Vec<&str> = small.split('\n').collect();
    assert_eq!(lines.len(), table.len() + 1);
    assert_eq!(lines[1].split('|').count(), 4);
    assert!(lines[1].split('|').all(|t| t == "---"));
    let large = format_pretty(&table);
    let lines: Vec<&str> = large.split('\n').collect();
    assert_eq!(lines.len(), table.len() + 1);
    assert_eq!(lines[1], "|---|---|---|---|");
}

#[test]
fn render_follows_the_style() {
    let table = grid(&[&["a", "bb"], &["1", "2"]]);
    assert_eq!(render(&table, Style::Minimized), format_minimized(&table));
    assert_eq!(render(&table, Style::Pretty), format_pretty(&table));
    assert_eq!(render(&table, Style::Pretty), "| a | bb |\n|---|----|\n| 1 | 2  |");
}

#[test]
fn a_table_needs_two_rows_and_a_column() {
    assert!(!is_renderable(&grid(&[])));
    assert!(!is_renderable(&grid(&[&["only"]])));
    assert!(!is_renderable(&grid(&[&[], &[]])));
    assert!(is_renderable(&grid(&[&["h"], &["d"]])));
    assert!(is_renderable(&grid(&[&["h", "i"], &["d", "e"], &["f", "g"]])));
}

#[test]
fn a_single_line_is_rejected() {
    let lines = row(&["only"]);
    for minimize in [false, true] {
        let config = Config::new(minimize, None, None, None);
        assert_eq!(convert(&lines, &config), Err(TableError::InputTooSmall));
    }
}

#[test]
fn no_lines_are_rejected() {
    let lines: Vec<String> = Vec::new();
    for minimize in [false, true] {
        let config = Config::new(minimize, None, None, None);
        assert_eq!(convert(&lines, &config), Err(TableError::InputTooSmall));
    }
}

#[test]
fn converts_lines_to_a_table_with_a_final_newline() {
    let lines = row(&["a, bb ,c", "1,2"]);
    let config = Config::new(false, None, None, None);
    assert_eq!(
        convert(&lines, &config),
        Ok("| a | bb | c |\n|---|----|---|\n| 1 | 2  |   |\n".to_string())
    );
    let config = Config::new(true, None, None, None);
    assert_eq!(convert(&lines, &config), Ok("a|bb|c\n---|---|---\n1|2|\n".to_string()));
}

#[test]
fn converts_with_another_separator() {
    let lines = row(&["a;b", "1,5;2"]);
    let config = Config::new(true, Some(";".to_string()), None, None);
    assert_eq!(convert(&lines, &config), Ok("a|b\n---|---\n1,5|2\n".to_string()));
}

#[test]
fn the_settings_default_to_a_comma_and_the_aligned_style() {
    let config = Config::new(false, None, None, None);
    assert_eq!(config.separator, ",");
    assert!(!config.minimize);
    assert_eq!(config.file, None);
    assert_eq!(config.out, None);
    assert_eq!(config.style(), Style::Pretty);
    let config = Config::new(
        true,
        Some("\t".to_string()),
        Some("in.csv".to_string()),
        Some("out.md".to_string()),
    );
    assert_eq!(config.separator, "\t");
    assert_eq!(config.file, Some("in.csv".to_string()));
    assert_eq!(config.out, Some("out.md".to_string()));
    assert_eq!(config.style(), Style::Minimized);
}

#[test]
fn the_error_has_its_message() {
    assert_eq!(
        TableError::InputTooSmall.message(),
        "Input requires at least 2 rows and 1 column."
    );
}

#[test]
fn joins_with_the_separator_between() {
    assert_eq!(join_strings(&row(&[]), ", "), "");
    assert_eq!(join_strings(&row(&["a"]), ", "), "a");
    assert_eq!(join_strings(&row(&["a", "", "c"]), ", "), "a, , c");
}

#[test]
fn draws_dashes() {
    assert_eq!(dashes(0), "");
    assert_eq!(dashes(4), "----");
}

#[test]
fn the_lines_of_an_aligned_table_are_equally_long() {
    let table = grid(&[
        &["id", "name", "~"],
        &["1", "a longer cell", ""],
        &["", "x", "! #"],
        &["12345", "", "z"],
    ]);
    let text = format_pretty(&table);
    let lines: Vec<&str> = text.split('\n').collect();
    assert_eq!(lines.len(), 5);
    for line in &lines {
        assert_eq!(line.len(), lines[1].len());
    }
    assert_eq!(lines[1], "|-------|---------------|-----|");
    assert_eq!(lines[3], "|       | x             | ! # |");
    let widths = column_widths(&table);
    for row in pad_cells(&table, &widths) {
        for (cell, width) in row.iter().zip(&widths) {
            assert_eq!(cell.len(), *width);
        }
    }
}

#[test]
fn the_compact_form_reads_back() {
    let table = grid(&[&["name", "n", ""], &["x y", "10", "-"], &["", "", "z"]]);
    let text = format_minimized(&table);
    let lines: Vec<String> = text.split('\n').map(|s| s.to_string()).collect();
    let back = mdtable::parse::parse_table_data(&lines, "|");
    assert_eq!(
        back,
        grid(&[&["name", "n", ""], &["---", "---", "---"], &["x y", "10", "-"], &["", "", "z"]])
    );
}

#[test]
fn the_aligned_form_ends_with_a_pipe() {
    for table in [
        grid(&[&["h"], &[""]]),
        grid(&[&["a", "b"], &["", ""]]),
        grid(&[&["a", "b"], &["c", "d"], &["e", "\n"]]),
    ] {
        assert!(format_pretty(&table).ends_with(" |"));
    }
}

#[test]
fn the_compact_form_ends_with_its_last_row() {
    assert_eq!(format_minimized(&grid(&[&["h"], &[""]])), "h\n---\n");
    assert_eq!(format_minimized(&grid(&[&["h", "i"], &["", ""]])), "h|i\n---|---\n|");
    assert_eq!(format_minimized(&grid(&[&["h"], &["x"], &["y"]])), "h\n---\nx\ny");
}

#[test]
fn every_padded_cell_is_the_cell_and_then_spaces() {
    let table = grid(&[&["\u{e9}t\u{e9}", "x"], &["a", "\u{65e5}\u{672c}"], &["abcde", ""]]);
    let widths = column_widths(&table);
    assert_eq!(widths, vec![5, 4]);
    let cells = pad_cells(&table, &widths);
    assert_eq!(
        cells,
        grid(&[
            &["\u{e9}t\u{e9}  ", "x   "],
            &["a    ", "\u{65e5}\u{672c}"],
            &["abcde", "    "]
        ])
    );
    for (row, padded) in table.iter().zip(&cells) {
        for (cell, wide) in row.iter().zip(padded) {
            assert!(wide.starts_with(cell.as_str()));
            assert!(wide[cell.len()..].chars().all(|c| c == ' '));
        }
    }
}

#[test]
fn the_cells_of_the_aligned_form_trim_to_the_table() {
    let table = grid(&[&["name", "n"], &["x y", ""], &["", "\u{e9}"]]);
    let widths = column_widths(&table);
    let cells = pad_cells(&table, &widths);
    for (row, padded) in table.iter().zip(&cells) {
        for (cell, wide) in row.iter().zip(padded) {
            assert_eq!(wide.trim(), cell);
        }
    }
}
