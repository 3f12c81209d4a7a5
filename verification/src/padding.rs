//! Padding a cell to the width of its column.

use vstd::prelude::*;
use pad::PadStr;
use unicode_width::UnicodeWidthStr;
use crate::text::run;

verus! {

/// The number of terminal columns that a text takes when shown: what
/// `unicode_width::UnicodeWidthStr::width` returns for it, by which
/// `pad::PadStr` measures a text too. It depends on the characters alone.
pub uninterp spec fn display_width(text: Seq<char>) -> nat;

/// A text of printable ASCII characters alone, from the space to the tilde.
pub open spec fn plain(text: Seq<char>) -> bool {
    forall|i: int| 0 <= i < text.len() ==> ' ' <= #[trigger] text[i] <= '~'
}

/// The display length of a text, by which columns are measured and cells
/// are padded: a column for each character of a plain text, the display
/// width of any other.
pub open spec fn shown_width(text: Seq<char>) -> nat {
    if plain(text) {
        text.len()
    } else {
        display_width(text)
    }
}

/// A text that is shown `shown` columns wide, brought to `width` columns by
/// spaces on its right; a text already that wide stays as it is.
pub open spec fn padded(text: Seq<char>, width: nat, shown: nat) -> Seq<char> {
    if shown >= width {
        text
    } else {
        text + run(' ', (width - shown) as nat)
    }
}

/// A cell padded on the right to `width` columns.
pub open spec fn pad_cell(text: Seq<char>, width: nat) -> Seq<char> {
    padded(text, width, shown_width(text))
}

/// `unicode_width::UnicodeWidthStr::width` on a string slice: the display
/// width of the text. Of its value one thing is claimed: every printable
/// ASCII character takes one column, so a text of such characters is as wide
/// as it is long.
#[verifier::external_body]
pub(crate) fn shown_width_of(text: &str) -> (w: usize)
    ensures
        w as nat == shown_width(text@),
{
    UnicodeWidthStr::width(text)
}

/// `pad::PadStr::pad_to_width` on a string slice. The method measures the
/// text by its display width; where that is below `width` it returns the text
/// followed by the missing number of spaces, and otherwise the text unchanged
/// (it never truncates). Of the display width itself one thing is claimed:
/// every printable ASCII character takes one column, so a text of such
/// characters is as wide as it is long.
#[verifier::external_body]
pub(crate) fn pad_to_width(text: &str, width: usize) -> (out: String)
    ensures
        out@ == padded(
            text@,
            width as nat,
            if plain(text@) {
                text@.len()
            } else {
                display_width(text@)
            },
        ),
{
    text.pad_to_width(width)
}

/// A cell padded to a width that is no less than its display length is the
/// cell followed by as many spaces as it falls short.
pub proof fn lemma_pad_fills(text: Seq<char>, width: nat)
    requires
        shown_width(text) <= width,
    ensures
        pad_cell(text, width) == text + run(' ', (width - shown_width(text)) as nat),
        pad_cell(text, width).take(text.len() as int) == text,
        plain(text) ==> pad_cell(text, width).len() == width,
{
    let fill = run(' ', (width - shown_width(text)) as nat);
    assert(text + fill =~= pad_cell(text, width));
    assert((text + fill).take(text.len() as int) =~= text);
}

} // verus!
