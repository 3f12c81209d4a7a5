//! From lines of text to a rectangular grid of trimmed cells.

use vstd::prelude::*;
use crate::grid::{rectangular, renderable, Cell, Grid, Row};
use crate::text::{free_of, join, lemma_join_front, run};

verus! {

/// The white-space characters of Unicode (`White_Space`), which are those
/// that `char::is_whitespace` accepts: the controls from tab to carriage
/// return, the space, next line, the no-break spaces, the Ogham space mark,
/// the spaces of fixed width, the line and paragraph separators, the medium
/// mathematical space and the ideographic space.
pub open spec fn is_white_space(c: char) -> bool {
    let code = c as u32;
    ||| 0x0009 <= code <= 0x000D
    ||| code == 0x0020
    ||| code == 0x0085
    ||| code == 0x00A0
    ||| code == 0x1680
    ||| 0x2000 <= code <= 0x200A
    ||| code == 0x2028
    ||| code == 0x2029
    ||| code == 0x202F
    ||| code == 0x205F
    ||| code == 0x3000
}

/// The text without the white space at its start.
pub open spec fn trim_start(text: Seq<char>) -> Seq<char>
    decreases text.len(),
{
    if text.len() > 0 && is_white_space(text[0]) {
        trim_start(text.skip(1))
    } else {
        text
    }
}

/// The text without the white space at its end.
pub open spec fn trim_end(text: Seq<char>) -> Seq<char>
    decreases text.len(),
{
    if text.len() > 0 && is_white_space(text.last()) {
        trim_end(text.drop_last())
    } else {
        text
    }
}

/// The text without the white space at its start and at its end.
pub open spec fn trimmed(text: Seq<char>) -> Cell {
    trim_end(trim_start(text))
}

/// The pieces of `text` between the occurrences of a non-empty `sep`, taken
/// from the left and not overlapping, where no occurrence starts before `at`.
pub open spec fn split_from(text: Seq<char>, sep: Seq<char>, at: int) -> Seq<Seq<char>>
    decreases text.len(), text.len() - at,
{
    if sep.len() == 0 || at < 0 || at + sep.len() > text.len() {
        seq![text]
    } else if text.subrange(at, at + sep.len()) == sep {
        seq![text.take(at)] + split_from(text.skip(at + sep.len()), sep, 0)
    } else {
        split_from(text, sep, at + 1)
    }
}

/// The pieces of `text` between the occurrences of `sep`. A text without an
/// occurrence is one piece; an occurrence at the start or the end leaves an
/// empty piece there. The empty separator occurs before, between and after
/// the characters.
pub open spec fn pieces(text: Seq<char>, sep: Seq<char>) -> Seq<Seq<char>> {
    if sep.len() == 0 {
        seq![Seq::empty()] + Seq::new(text.len(), |i: int| seq![text[i]]) + seq![Seq::empty()]
    } else {
        split_from(text, sep, 0)
    }
}

/// The cells of one line: its pieces, each trimmed.
pub open spec fn cells_of(line: Seq<char>, sep: Seq<char>) -> Row {
    let parts = pieces(line, sep);
    Seq::new(parts.len(), |j: int| trimmed(parts[j]))
}

/// One row per line, each as long as its line gives.
pub open spec fn ragged(lines: Seq<Seq<char>>, sep: Seq<char>) -> Grid {
    Seq::new(lines.len(), |i: int| cells_of(lines[i], sep))
}

/// The length of the longest row, 0 without rows.
pub open spec fn widest(rows: Grid) -> nat
    decreases rows.len(),
{
    if rows.len() == 0 {
        0
    } else {
        let before = widest(rows.drop_last());
        if rows.last().len() > before {
            rows.last().len()
        } else {
            before
        }
    }
}

/// The row with empty cells added on the right until it has `n` cells.
pub open spec fn filled(row: Row, n: nat) -> Row {
    if row.len() >= n {
        row
    } else {
        row + Seq::new((n - row.len()) as nat, |k: int| Seq::<char>::empty())
    }
}

/// Every row filled up to the length of the longest.
pub open spec fn normalized(rows: Grid) -> Grid {
    Seq::new(rows.len(), |i: int| filled(rows[i], widest(rows)))
}

/// The table that the lines hold.
pub open spec fn parsed(lines: Seq<Seq<char>>, sep: Seq<char>) -> Grid {
    normalized(ragged(lines, sep))
}

/// `str::trim` returns the slice without its leading and trailing white
/// space, white space being Unicode's `White_Space` characters. Nothing
/// inside the text is touched.
pub assume_specification[ str::trim ](text: &str) -> (out: &str)
    ensures
        out@ == trimmed(text@),
;

/// `str::split` with a string as the pattern, its items copied into
/// `String`s. The iterator yields the substrings between the matches of the
/// pattern, which are found from the left and do not overlap; the text after
/// the last match is the last item, also when it is empty. The empty pattern
/// matches at every character boundary, the start and the end included.
#[verifier::external_body]
fn split(line: &str, separator: &str) -> (parts: Vec<String>)
    ensures
        parts.deep_view() == pieces(line@, separator@),
{
    line.split(separator).map(String::from).collect()
}

/// A text of white space alone; the empty text is one.
pub open spec fn blank(text: Seq<char>) -> bool {
    forall|i: int| 0 <= i < text.len() ==> is_white_space(#[trigger] text[i])
}

/// Whether a line holds nothing but white space. Such a line ends the input
/// that is typed in.
pub fn is_blank(line: &str) -> (yes: bool)
    ensures
        yes == blank(line@),
{
    proof {
        lemma_blank_trims_to_nothing(line@);
    }
    line.trim().is_empty()
}

/// Splits a line on the separator and trims every piece.
pub fn parse_line(line: &str, separator: &str) -> (row: Vec<String>)
    ensures
        row.deep_view() == cells_of(line@, separator@),
{
    let parts = split(line, separator);
    let mut row: Vec<String> = Vec::new();
    let mut j: usize = 0;
    while j < parts.len()
        invariant
            j <= parts.len(),
            row.len() == j,
            forall|k: int| 0 <= k < j ==> (#[trigger] row[k])@ == trimmed(parts[k]@),
        decreases parts.len() - j,
    {
        row.push(String::from_str(parts[j].as_str().trim()));
        j += 1;
    }
    proof {
        assert(row.deep_view() =~= cells_of(line@, separator@));
    }
    row
}

/// Adds empty cells to a row until it has `n` cells.
fn fill_row(row: &mut Vec<String>, n: usize)
    ensures
        final(row).deep_view() == filled(old(row).deep_view(), n as nat),
{
    let ghost before = row.deep_view();
    while row.len() < n
        invariant
            before.len() <= row.len(),
            before.len() < n ==> row.len() <= n,
            before.len() >= n ==> row.len() == before.len(),
            forall|k: int| 0 <= k < before.len() ==> (#[trigger] row[k])@ == before[k],
            forall|k: int| before.len() <= k < row.len() ==> (#[trigger] row[k])@ == Seq::<char>::empty(),
        decreases n - row.len(),
    {
        row.push(String::new());
    }
    proof {
        assert(row.deep_view() =~= filled(before, n as nat));
    }
}

/// Parses the lines into a table: one row per line, the cells trimmed, short
/// rows filled with empty cells up to the length of the longest.
pub fn parse_table_data(lines: &[String], separator: &str) -> (rows: Vec<Vec<String>>)
    ensures
        rows.deep_view() == parsed(lines.deep_view(), separator@),
{
    let ghost raw = ragged(lines.deep_view(), separator@);
    let mut rows: Vec<Vec<String>> = Vec::new();
    let mut max_len: usize = 0;
    let mut i: usize = 0;
    while i < lines.len()
        invariant
            raw == ragged(lines.deep_view(), separator@),
            i <= lines.len(),
            rows.len() == i,
            forall|r: int| 0 <= r < i ==> (#[trigger] rows[r]).deep_view() == raw[r],
            max_len as nat == widest(raw.take(i as int)),
        decreases lines.len() - i,
    {
        let row = parse_line(lines[i].as_str(), separator);
        proof {
            assert(raw.take(i + 1).drop_last() =~= raw.take(i as int));
            assert(row.deep_view().len() == row.len());
        }
        if row.len() > max_len {
            max_len = row.len();
        }
        rows.push(row);
        i += 1;
    }
    proof {
        assert(raw.take(i as int) =~= raw);
    }
    let mut i: usize = 0;
    while i < rows.len()
        invariant
            raw.len() == rows.len(),
            i <= rows.len(),
            max_len as nat == widest(raw),
            forall|r: int| 0 <= r < i ==> (#[trigger] rows[r]).deep_view() == filled(raw[r], widest(raw)),
            forall|r: int| i <= r < rows.len() ==> (#[trigger] rows[r]).deep_view() == raw[r],
        decreases rows.len() - i,
    {
        fill_row(&mut rows[i], max_len);
        i += 1;
    }
    proof {
        assert(rows.deep_view() =~= normalized(raw));
    }
    rows
}

/// No row is longer than the longest, and with rows the longest is one of them.
pub proof fn lemma_widest_is_max(rows: Grid)
    ensures
        forall|i: int| 0 <= i < rows.len() ==> (#[trigger] rows[i]).len() <= widest(rows),
        rows.len() > 0 ==> exists|i: int| 0 <= i < rows.len() && (#[trigger] rows[i]).len() == widest(rows),
        rows.len() == 0 ==> widest(rows) == 0,
    decreases rows.len(),
{
    if rows.len() > 0 {
        let before = rows.drop_last();
        lemma_widest_is_max(before);
        assert forall|i: int| 0 <= i < rows.len() implies (#[trigger] rows[i]).len() <= widest(
            rows,
        ) by {
            if i < before.len() {
                assert(before[i] == rows[i]);
            }
        }
        if rows.last().len() > widest(before) || before.len() == 0 {
            assert(rows[rows.len() - 1].len() == widest(rows));
        } else {
            let i = choose|i: int| 0 <= i < before.len() && (#[trigger] before[i]).len() == widest(before);
            assert(rows[i] == before[i]);
        }
    }
}

/// Parsing makes the table rectangular: every row has the same length, the
/// greatest number of pieces that a line splits into (0 without lines).
pub proof fn lemma_parsed_rectangular(lines: Seq<Seq<char>>, sep: Seq<char>)
    ensures
        rectangular(parsed(lines, sep)),
        parsed(lines, sep).len() == lines.len(),
        forall|i: int| 0 <= i < lines.len() ==> (#[trigger] parsed(lines, sep)[i]).len() == widest(ragged(lines, sep)),
        forall|i: int| 0 <= i < lines.len() ==> (#[trigger] pieces(lines[i], sep)).len() <= widest(ragged(lines, sep)),
        lines.len() > 0 ==> exists|i: int| 0 <= i < lines.len() && (#[trigger] pieces(lines[i], sep)).len() == widest(ragged(lines, sep)),
        lines.len() == 0 ==> widest(ragged(lines, sep)) == 0,
{
    let raw = ragged(lines, sep);
    lemma_widest_is_max(raw);
    assert forall|i: int| 0 <= i < lines.len() implies (#[trigger] pieces(lines[i], sep)).len() <= widest(raw) by {
        assert(raw[i].len() == pieces(lines[i], sep).len());
    }
    if lines.len() > 0 {
        let i = choose|i: int| 0 <= i < raw.len() && (#[trigger] raw[i]).len() == widest(raw);
        assert(pieces(lines[i], sep).len() == widest(raw));
    }
}

/// What `trim_start` leaves is empty or starts with a character that is no
/// white space.
pub proof fn lemma_trim_start_done(text: Seq<char>)
    ensures
        trim_start(text).len() == 0 || !is_white_space(trim_start(text)[0]),
    decreases text.len(),
{
    if text.len() > 0 && is_white_space(text[0]) {
        lemma_trim_start_done(text.skip(1));
    }
}

/// What `trim_end` leaves is the start of the text, and is empty or ends with
/// a character that is no white space.
pub proof fn lemma_trim_end_done(text: Seq<char>)
    ensures
        trim_end(text).len() <= text.len(),
        trim_end(text) == text.take(trim_end(text).len() as int),
        trim_end(text).len() == 0 || !is_white_space(trim_end(text).last()),
    decreases text.len(),
{
    if text.len() > 0 && is_white_space(text.last()) {
        let shorter = text.drop_last();
        lemma_trim_end_done(shorter);
        assert(shorter.take(trim_end(shorter).len() as int) =~= text.take(
            trim_end(shorter).len() as int,
        ));
    } else {
        assert(text.take(text.len() as int) =~= text);
    }
}

/// Trimming at the start leaves nothing exactly of a text of white space.
pub proof fn lemma_trim_start_of_blank(text: Seq<char>)
    ensures
        trim_start(text).len() == 0 <==> blank(text),
    decreases text.len(),
{
    if text.len() > 0 && is_white_space(text[0]) {
        let rest = text.skip(1);
        lemma_trim_start_of_blank(rest);
        if blank(rest) {
            assert forall|i: int| 0 <= i < text.len() implies is_white_space(
                #[trigger] text[i],
            ) by {
                if i > 0 {
                    assert(text[i] == rest[i - 1]);
                }
            }
        }
        if blank(text) {
            assert forall|i: int| 0 <= i < rest.len() implies is_white_space(
                #[trigger] rest[i],
            ) by {
                assert(rest[i] == text[i + 1]);
            }
        }
    } else if text.len() > 0 {
        assert(!is_white_space(text[0]));
    }
}

/// Trimming at the end leaves nothing exactly of a text of white space.
pub proof fn lemma_trim_end_of_blank(text: Seq<char>)
    ensures
        trim_end(text).len() == 0 <==> blank(text),
    decreases text.len(),
{
    if text.len() > 0 && is_white_space(text.last()) {
        let rest = text.drop_last();
        lemma_trim_end_of_blank(rest);
        if blank(rest) {
            assert forall|i: int| 0 <= i < text.len() implies is_white_space(
                #[trigger] text[i],
            ) by {
                if i < rest.len() {
                    assert(text[i] == rest[i]);
                }
            }
        }
        if blank(text) {
            assert forall|i: int| 0 <= i < rest.len() implies is_white_space(
                #[trigger] rest[i],
            ) by {
                assert(rest[i] == text[i]);
            }
        }
    } else if text.len() > 0 {
        assert(!is_white_space(text[text.len() - 1]));
    }
}

/// Trimming leaves nothing exactly of a text of white space.
pub proof fn lemma_blank_trims_to_nothing(text: Seq<char>)
    ensures
        trimmed(text).len() == 0 <==> blank(text),
{
    let inner = trim_start(text);
    lemma_trim_start_of_blank(text);
    lemma_trim_end_of_blank(inner);
    lemma_trim_start_done(text);
    if inner.len() > 0 && blank(inner) {
        assert(is_white_space(inner[0]));
    }
}

/// Trimming is idempotent: a trimmed text is its own trimmed form.
pub proof fn lemma_trim_idempotent(text: Seq<char>)
    ensures
        trimmed(trimmed(text)) == trimmed(text),
{
    let inner = trim_start(text);
    let cell = trim_end(inner);
    lemma_trim_start_done(text);
    lemma_trim_end_done(inner);
    if cell.len() > 0 {
        assert(cell[0] == inner[0]);
    }
}

/// A text that neither starts nor ends with white space.
pub open spec fn is_trimmed(text: Seq<char>) -> bool {
    text.len() == 0 || (!is_white_space(text[0]) && !is_white_space(text.last()))
}

/// A trimmed text neither starts nor ends with white space.
pub proof fn lemma_trimmed_is_trimmed(text: Seq<char>)
    ensures
        is_trimmed(trimmed(text)),
{
    let inner = trim_start(text);
    lemma_trim_start_done(text);
    lemma_trim_end_done(inner);
    if trim_end(inner).len() > 0 {
        assert(trim_end(inner)[0] == inner[0]);
    }
}

/// Every cell of a parsed table is trimmed, those that fill a short row too.
pub proof fn lemma_parsed_cells_trimmed(lines: Seq<Seq<char>>, sep: Seq<char>)
    ensures
        forall|i: int, j: int|
            0 <= i < parsed(lines, sep).len() && 0 <= j < parsed(lines, sep)[i].len()
                ==> is_trimmed(#[trigger] parsed(lines, sep)[i][j]),
{
    let raw = ragged(lines, sep);
    let table = parsed(lines, sep);
    assert forall|i: int, j: int| 0 <= i < table.len() && 0 <= j < table[i].len() implies is_trimmed(
        #[trigger] table[i][j],
    ) by {
        if j < raw[i].len() {
            assert(table[i][j] == raw[i][j]);
            lemma_trimmed_is_trimmed(pieces(lines[i], sep)[j]);
        }
    }
}

/// Splitting always leaves a piece.
pub proof fn lemma_split_from_has_a_piece(text: Seq<char>, sep: Seq<char>, at: int)
    ensures
        split_from(text, sep, at).len() >= 1,
    decreases text.len(), text.len() - at,
{
    if sep.len() == 0 || at < 0 || at + sep.len() > text.len() {
    } else if text.subrange(at, at + sep.len()) == sep {
        lemma_split_from_has_a_piece(text.skip(at + sep.len()), sep, 0);
    } else {
        lemma_split_from_has_a_piece(text, sep, at + 1);
    }
}

/// The pieces of a text, joined with the separator again, are the text.
pub proof fn lemma_split_from_joins_back(text: Seq<char>, sep: Seq<char>, at: int)
    ensures
        join(split_from(text, sep, at), sep) == text,
    decreases text.len(), text.len() - at,
{
    if sep.len() == 0 || at < 0 || at + sep.len() > text.len() {
    } else if text.subrange(at, at + sep.len()) == sep {
        let rest = text.skip(at + sep.len());
        lemma_split_from_joins_back(rest, sep, 0);
        lemma_split_from_has_a_piece(rest, sep, 0);
        lemma_join_front(text.take(at), split_from(rest, sep, 0), sep);
        assert(text.take(at) + text.subrange(at, at + sep.len()) + rest =~= text);
    } else {
        lemma_split_from_joins_back(text, sep, at + 1);
    }
}

/// Splitting loses nothing: the pieces of a text, joined with the separator
/// again, are the text.
pub proof fn lemma_pieces_join_back(text: Seq<char>, sep: Seq<char>)
    requires
        sep.len() > 0,
    ensures
        join(pieces(text, sep), sep) == text,
{
    lemma_split_from_joins_back(text, sep, 0);
}

/// Every line has a cell, so lines make a table that can be rendered exactly
/// when there are two of them or more.
pub proof fn lemma_parsed_renderable(lines: Seq<Seq<char>>, sep: Seq<char>)
    ensures
        forall|i: int| 0 <= i < lines.len() ==> (#[trigger] pieces(lines[i], sep)).len() >= 1,
        renderable(parsed(lines, sep)) <==> lines.len() >= 2,
{
    assert forall|i: int| 0 <= i < lines.len() implies (#[trigger] pieces(lines[i], sep)).len()
        >= 1 by {
        lemma_split_from_has_a_piece(lines[i], sep, 0);
    }
    lemma_parsed_rectangular(lines, sep);
    if lines.len() >= 2 {
        assert(pieces(lines[0], sep).len() >= 1);
        assert(parsed(lines, sep)[0].len() == widest(ragged(lines, sep)));
    }
}

/// Scanning a text that is free of the separating character finds no
/// occurrence: the text is one piece.
pub proof fn lemma_split_without_separator(text: Seq<char>, c: char, at: int)
    requires
        free_of(text, c),
        0 <= at,
    ensures
        split_from(text, seq![c], at) == seq![text],
    decreases text.len() - at,
{
    if at + 1 <= text.len() {
        assert(text.subrange(at, at + 1)[0] == text[at]);
        lemma_split_without_separator(text, c, at + 1);
    }
}

/// Scanning a text that is free of the separating character up to its first
/// occurrence parts the text there.
pub proof fn lemma_split_at_first(first: Seq<char>, tail: Seq<char>, c: char, at: int)
    requires
        free_of(first, c),
        0 <= at <= first.len(),
    ensures
        split_from(first + seq![c] + tail, seq![c], at) == seq![first] + split_from(
            tail,
            seq![c],
            0,
        ),
    decreases first.len() - at,
{
    let text = first + seq![c] + tail;
    if at == first.len() {
        assert(text.subrange(at, at + 1) =~= seq![c]);
        assert(text.take(at) =~= first);
        assert(text.skip(at + 1) =~= tail);
    } else {
        assert(text.subrange(at, at + 1)[0] == first[at]);
        lemma_split_at_first(first, tail, c, at + 1);
    }
}

/// Splitting undoes joining: texts that are free of a character, joined with
/// it, split on it into the same texts again.
pub proof fn lemma_pieces_of_join(parts: Seq<Seq<char>>, c: char)
    requires
        parts.len() >= 1,
        forall|i: int| 0 <= i < parts.len() ==> free_of(#[trigger] parts[i], c),
    ensures
        pieces(join(parts, seq![c]), seq![c]) == parts,
    decreases parts.len(),
{
    let first = parts[0];
    let rest = parts.skip(1);
    assert(parts =~= seq![first] + rest);
    lemma_join_front(first, rest, seq![c]);
    assert(free_of(first, c));
    if rest.len() == 0 {
        lemma_split_without_separator(first, c, 0);
        assert(seq![first] =~= parts);
    } else {
        assert forall|i: int| 0 <= i < rest.len() implies free_of(#[trigger] rest[i], c) by {
            assert(rest[i] == parts[i + 1]);
        }
        lemma_pieces_of_join(rest, c);
        lemma_split_at_first(first, join(rest, seq![c]), c, 0);
    }
}

/// A text that neither starts nor ends with white space is its own trimmed
/// form.
pub proof fn lemma_trim_keeps_trimmed(text: Seq<char>)
    requires
        is_trimmed(text),
    ensures
        trimmed(text) == text,
{
}

/// A row of trimmed cells that are free of a character, joined with it, is a
/// line that holds the same cells again.
pub proof fn lemma_cells_of_join(row: Row, c: char)
    requires
        row.len() >= 1,
        forall|j: int| 0 <= j < row.len() ==> free_of(#[trigger] row[j], c) && is_trimmed(row[j]),
    ensures
        cells_of(join(row, seq![c]), seq![c]) == row,
{
    lemma_pieces_of_join(row, c);
    assert forall|j: int| 0 <= j < row.len() implies trimmed(#[trigger] row[j]) == row[j] by {
        lemma_trim_keeps_trimmed(row[j]);
    }
    assert(cells_of(join(row, seq![c]), seq![c]) =~= row);
}

/// Spaces at the end of a text are trimmed away.
pub proof fn lemma_trim_end_of_spaces(text: Seq<char>, n: nat)
    ensures
        trim_end(text + run(' ', n)) == trim_end(text),
    decreases n,
{
    let longer = text + run(' ', n);
    if n > 0 {
        assert(longer.last() == ' ');
        assert(is_white_space(' '));
        assert(longer.drop_last() =~= text + run(' ', (n - 1) as nat));
        lemma_trim_end_of_spaces(text, (n - 1) as nat);
    } else {
        assert(longer =~= text);
    }
}

/// A trimmed text followed by spaces trims to the text again.
pub proof fn lemma_trim_drops_spaces(text: Seq<char>, n: nat)
    requires
        is_trimmed(text),
    ensures
        trimmed(text + run(' ', n)) == text,
{
    let longer = text + run(' ', n);
    if text.len() == 0 {
        assert(blank(longer)) by {
            assert(is_white_space(' '));
        }
        lemma_blank_trims_to_nothing(longer);
        assert(trimmed(longer) =~= text);
    } else {
        assert(longer[0] == text[0]);
        lemma_trim_end_of_spaces(text, n);
    }
}

} // verus!
