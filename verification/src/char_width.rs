//! The console column width of characters, as the terminal displays them.

use vstd::prelude::*;

verus! {

/// The displayed column width of a character on the console: `Some(1)` for
/// half-width glyphs, `Some(2)` for full-width glyphs, `None` for control
/// characters.
pub uninterp spec fn char_display_width(c: char) -> Option<usize>;

/// A character that occupies exactly one console column.
pub open spec fn is_half_width(c: char) -> bool {
    char_display_width(c) == Some(1usize)
}

/// A character that occupies exactly two console columns.
pub open spec fn is_full_width(c: char) -> bool {
    char_display_width(c) == Some(2usize)
}

/// A character that can be drawn at all: one or two columns wide.
pub open spec fn is_drawable_char(c: char) -> bool {
    is_half_width(c) || is_full_width(c)
}

/// Relies on `unicode_width::UnicodeWidthChar::width`: the displayed column
/// width of a character, `None` for control characters. The result depends on
/// the character alone, and the source returns `Some(1)` for every printable
/// ASCII character (U+0020 up to, and not including, U+007F).
#[verifier::external_body]
pub(crate) fn console_char_width(c: char) -> (r: Option<usize>)
    ensures
        r == char_display_width(c),
        ' ' <= c && c < '\u{7f}' ==> r == Some(1usize),
{
    unicode_width::UnicodeWidthChar::width(c)
}

} // verus!
