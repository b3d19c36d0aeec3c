//! The ASCII character classes that the terminal distinguishes.

use vstd::prelude::*;

verus! {

/// The escape byte that starts a control sequence.
pub const ESC: u8 = 0x1b;

/// Backspace.
pub const BS: u8 = 0x08;

/// Delete, which shells echo and expect for the backspace key.
pub const DEL: u8 = 0x7f;

/// Line feed.
pub const LF: u8 = 0x0a;

/// Carriage return.
pub const CR: u8 = 0x0d;

/// A letter of the ASCII alphabet.
pub open spec fn alphabetic(b: u8) -> bool {
    (0x41 <= b <= 0x5a) || (0x61 <= b <= 0x7a)
}

/// A visible ASCII character: `!` to `~`.
pub open spec fn graphic(b: u8) -> bool {
    0x21 <= b <= 0x7e
}

/// A byte that takes up a cell of the current line: a visible character, a space
/// or a tab.
pub open spec fn cell(b: u8) -> bool {
    graphic(b) || b == 0x20 || b == 0x09
}

/// A decimal digit.
pub open spec fn digit(c: char) -> bool {
    '0' <= c <= '9'
}

/// A character that is shown: a visible ASCII character, or one of the ASCII
/// whitespace characters space, tab, line feed, form feed and carriage return.
pub open spec fn shown(c: char) -> bool {
    ('!' <= c <= '~') || c == ' ' || c == '\t' || c == '\n' || c == '\x0c' || c == '\r'
}

/// Whether `b` is a letter.
pub fn is_alphabetic(b: u8) -> (r: bool)
    ensures
        r == alphabetic(b),
{
    (0x41 <= b && b <= 0x5a) || (0x61 <= b && b <= 0x7a)
}

/// Whether `b` takes up a cell of the current line.
pub fn is_cell(b: u8) -> (r: bool)
    ensures
        r == cell(b),
{
    (0x21 <= b && b <= 0x7e) || b == 0x20 || b == 0x09
}

/// Whether `c` is a decimal digit.
pub fn is_digit(c: char) -> (r: bool)
    ensures
        r == digit(c),
{
    '0' <= c && c <= '9'
}

/// Whether `c` is shown.
pub fn is_shown(c: char) -> (r: bool)
    ensures
        r == shown(c),
{
    ('!' <= c && c <= '~') || c == ' ' || c == '\t' || c == '\n' || c == '\x0c' || c == '\r'
}

} // verus!
