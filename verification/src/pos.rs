//! Source positions: byte offsets carried by parse events are turned into
//! 1-based line/column pairs only when an error is reported.

use vstd::prelude::*;

verus! {

/// A 1-based line/column position inside the source text.
#[derive(Clone, Copy, PartialEq, Eq, Structural, Debug, Hash)]
pub struct TextPos {
    pub row: u32,
    pub col: u32,
}

impl TextPos {
    /// Builds a position from a 1-based row and column.
    pub fn new(row: u32, col: u32) -> (r: TextPos)
        ensures
            r.row == row,
            r.col == col,
    {
        TextPos { row, col }
    }
}

/// The number of bytes the UTF-8 encoding of `c` occupies.
pub open spec fn spec_char_bytes(c: char) -> int {
    if (c as u32) < 0x80 {
        1
    } else if (c as u32) < 0x800 {
        2
    } else if (c as u32) < 0x10000 {
        3
    } else {
        4
    }
}

/// Increments a counter, stopping at the largest representable value.
pub open spec fn sat_inc(x: u32) -> u32 {
    if x == u32::MAX {
        x
    } else {
        (x + 1) as u32
    }
}

/// Adds a byte width to an offset, stopping at the largest representable value.
pub open spec fn spec_sat_add(a: int, b: int) -> int {
    if a + b > usize::MAX {
        usize::MAX as int
    } else {
        a + b
    }
}

/// Walks the text keeping a byte offset, a row and a column, and stops at the
/// character whose byte range contains `pos`.
pub open spec fn spec_text_pos_from(
    text: Seq<char>,
    pos: int,
    i: int,
    byte: int,
    row: u32,
    col: u32,
) -> TextPos
    decreases text.len() - i,
{
    if i >= text.len() || byte >= pos {
        TextPos { row, col }
    } else if text[i] == '\n' {
        spec_text_pos_from(text, pos, i + 1, byte + spec_char_bytes(text[i]), sat_inc(row), 1)
    } else {
        spec_text_pos_from(text, pos, i + 1, byte + spec_char_bytes(text[i]), row, sat_inc(col))
    }
}

/// The line/column position of the byte offset `pos` inside `text`.
pub open spec fn spec_text_pos(text: Seq<char>, pos: int) -> TextPos {
    spec_text_pos_from(text, pos, 0, 0, 1, 1)
}

/// The UTF-8 width of a character, computed from its scalar value.
pub fn char_bytes(c: char) -> (r: u8)
    ensures
        r as int == spec_char_bytes(c),
{
    let u = c as u32;
    if u < 0x80 {
        1
    } else if u < 0x800 {
        2
    } else if u < 0x10000 {
        3
    } else {
        4
    }
}

/// Adds a byte width to an offset, stopping at the largest representable value.
pub fn sat_add(a: usize, b: usize) -> (r: usize)
    ensures
        r as int == spec_sat_add(a as int, b as int),
{
    if b > usize::MAX - a {
        usize::MAX
    } else {
        a + b
    }
}

/// Computes the 1-based line and column of the byte offset `pos` in `text`.
pub fn text_pos_at(text: &str, pos: usize) -> (r: TextPos)
    ensures
        r == spec_text_pos(text@, pos as int),
{
    let n = text.unicode_len();
    let mut i: usize = 0;
    let mut byte: u128 = 0;
    let mut row: u32 = 1;
    let mut col: u32 = 1;
    while i < n && byte < pos as u128
        invariant
            0 <= i <= n,
            n == text@.len(),
            byte <= pos as u128 + 3,
            spec_text_pos_from(text@, pos as int, i as int, byte as int, row, col)
                == spec_text_pos(text@, pos as int),
        decreases n - i,
    {
        let c = text.get_char(i);
        let w = char_bytes(c);
        if c == '\n' {
            row = if row == u32::MAX {
                row
            } else {
                row + 1
            };
            col = 1;
        } else {
            col = if col == u32::MAX {
                col
            } else {
                col + 1
            };
        }
        byte = byte + w as u128;
        i = i + 1;
    }
    TextPos { row, col }
}

} // verus!
