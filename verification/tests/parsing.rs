use mdtable::parse::{parse_line, parse_table_data};

fn strings(items: &[&str]) -> Vec<String> {
    items.iter().map(|s| s.to_string()).collect()
}

fn table(rows: &[&[&str]]) -> Vec<Vec<String>> {
    rows.iter().map(|r| strings(r)).collect()
}

#[test]
fn parses_two_full_lines() {
    let lines = strings(&["a,bb,c", "1,2,3"]);
    assert_eq!(
        parse_table_data(&lines, ","),
        table(&[&["a", "bb", "c"], &["1", "2", "3"]])
    );
}

#[test]
fn fills_a_short_row_with_empty_cells() {
    let lines = strings(&["a,b,c", "1,2"]);
    assert_eq!(
        parse_table_data(&lines, ","),
        table(&[&["a", "b", "c"], &["1", "2", ""]])
    );
}

#[test]
fn fills_every_row_to_the_longest() {
    let lines = strings(&["a", "1,2,3,4", "x,y", ""]);
    let rows = parse_table_data(&lines, ",");
    assert_eq!(rows.len(), 4);
    for row in &rows {
        assert_eq!(row.len(), 4);
    }
    assert_eq!(rows[0], strings(&["a", "", "", ""]));
    assert_eq!(rows[1], strings(&["1", "2", "3", "4"]));
    assert_eq!(rows[2], strings(&["x", "y", "", ""]));
    assert_eq!(rows[3], strings(&["", "", "", ""]));
}

#[test]
fn no_lines_give_no_rows() {
    let lines: Vec<String> = Vec::new();
    assert_eq!(parse_table_data(&lines, ","), Vec::<Vec<String>>::new());
}

#[test]
fn a_line_without_separator_is_one_cell() {
    assert_eq!(parse_line("only", ","), strings(&["only"]));
}

#[test]
fn an_empty_line_is_one_empty_cell() {
    assert_eq!(parse_line("", ","), strings(&[""]));
}

#[test]
fn separators_at_the_ends_leave_empty_cells() {
    assert_eq!(parse_line(",a,,b,", ","), strings(&["", "a", "", "b", ""]));
}

#[test]
fn a_separator_of_several_characters_is_taken_literally() {
    assert_eq!(parse_line("a::b:c::", "::"), strings(&["a", "b:c", ""]));
    assert_eq!(parse_line("a.b", "."), strings(&["a", "b"]));
    assert_eq!(parse_line("a|b*c", "b*"), strings(&["a|", "c"]));
}

#[test]
fn occurrences_are_taken_from_the_left_without_overlap() {
    assert_eq!(parse_line("aaa", "aa"), strings(&["", "a"]));
    assert_eq!(parse_line("xaaaay", "aa"), strings(&["x", "", "y"]));
}

#[test]
fn the_empty_separator_parts_every_character() {
    assert_eq!(parse_line("ab", ""), strings(&["", "a", "b", ""]));
    assert_eq!(parse_line("", ""), strings(&["", ""]));
}

#[test]
fn cells_are_trimmed() {
    assert_eq!(
        parse_line("  a  , b\t,\tc d \r", ","),
        strings(&["a", "b", "c d"])
    );
    assert_eq!(parse_line("   ,  ", ","), strings(&["", ""]));
}

#[test]
fn trimming_takes_every_white_space_character() {
    let spaces = [
        '\u{0009}', '\u{000A}', '\u{000B}', '\u{000C}', '\u{000D}', '\u{0020}', '\u{0085}',
        '\u{00A0}', '\u{1680}', '\u{2000}', '\u{2001}', '\u{2002}', '\u{2003}', '\u{2004}',
        '\u{2005}', '\u{2006}', '\u{2007}', '\u{2008}', '\u{2009}', '\u{200A}', '\u{2028}',
        '\u{2029}', '\u{202F}', '\u{205F}', '\u{3000}',
    ];
    for c in spaces {
        let line = format!("{}x{}", c, c);
        assert_eq!(parse_line(&line, ","), strings(&["x"]));
    }
}

#[test]
fn trimming_leaves_other_characters() {
    let others = [
        '\u{0008}', '\u{000E}', '\u{001F}', '\u{0021}', '\u{0084}', '\u{0086}', '\u{009F}',
        '\u{00A1}', '\u{167F}', '\u{1681}', '\u{180E}', '\u{1FFF}', '\u{200B}', '\u{2027}',
        '\u{202A}', '\u{202E}', '\u{2030}', '\u{205E}', '\u{2060}', '\u{2FFF}', '\u{3001}',
        '\u{FEFF}',
    ];
    for c in others {
        let line = format!("{}x{}", c, c);
        assert_eq!(parse_line(&line, ","), vec![line.clone()]);
    }
}

#[test]
fn trimming_twice_changes_nothing() {
    for text in ["  a b  ", "\t\n", "", "x", " \u{3000}y z\u{00A0} "] {
        let once = parse_line(text, "\u{1}");
        let twice = parse_line(&once[0], "\u{1}");
        assert_eq!(once, twice);
        assert_eq!(once[0], text.trim());
    }
}

#[test]
fn a_line_of_white_space_is_blank() {
    assert!(mdtable::parse::is_blank(""));
    assert!(mdtable::parse::is_blank(" \t\r\n"));
    assert!(mdtable::parse::is_blank("\u{3000}\u{00A0}"));
    assert!(!mdtable::parse::is_blank(" a "));
    assert!(!mdtable::parse::is_blank("\u{200B}"));
}

#[test]
fn separators_and_cells_beyond_ascii() {
    assert_eq!(
        parse_line("a\u{2192}b\u{2192}\u{2192}c", "\u{2192}"),
        strings(&["a", "b", "", "c"])
    );
    assert_eq!(
        parse_line(" \u{e9}t\u{e9} ,\u{65e5}\u{672c}\u{3000}", ","),
        strings(&["\u{e9}t\u{e9}", "\u{65e5}\u{672c}"])
    );
}

#[test]
fn the_pieces_joined_again_are_the_line() {
    for line in ["a,b,,c", ",", "", "abc", ",,x,", "a::b"] {
        let cells = parse_line(line, ",");
        assert_eq!(mdtable::text::join_strings(&cells, ","), line);
    }
}

#[test]
fn every_parsed_cell_is_trimmed() {
    let lines = strings(&[" a , b ", "\tc\t", " , , , "]);
    for row in parse_table_data(&lines, ",") {
        for cell in row {
            assert_eq!(cell, cell.trim());
        }
    }
}

#[test]
fn two_lines_or_more_make_a_table() {
    let config = mdtable::config::Config::new(true, None, None, None);
    assert!(mdtable::convert::convert(&strings(&["", ""]), &config).is_ok());
    assert_eq!(
        mdtable::convert::convert(&strings(&["", ""]), &config),
        Ok("\n---\n\n".to_string())
    );
    assert!(mdtable::convert::convert(&strings(&["a,b,c"]), &config).is_err());
}
