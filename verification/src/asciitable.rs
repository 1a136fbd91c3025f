//! The ASCII table: the 256 byte values in 16 rows of 16, a cursor on one
//! of them, and a line describing the value under the cursor.

use vstd::prelude::*;
use crate::numfmt::{decimal, in_base, pad_left, push_padded, u64_to_decimal};
use crate::text::{append_str, owned, push_char};

verus! {

/// The character shown for a byte value: itself when printable ASCII
/// (32 to 126), else `.`.
pub open spec fn glyph_of(v: u8) -> char {
    if 32 <= v < 127 {
        (v as u32) as char
    } else {
        '.'
    }
}

/// The character shown for byte value `v`.
pub fn glyph(v: u8) -> (c: char)
    ensures
        c == glyph_of(v),
{
    if 32 <= v && v < 127 {
        v as char
    } else {
        '.'
    }
}

/// The line describing value `v`: the character (quoted) or `#` and the
/// number, then the value in decimal, two-digit hexadecimal and
/// three-digit octal.
pub open spec fn info_line_of(v: u8) -> Seq<char> {
    let shown = if 32 <= v < 127 {
        seq!['\'', glyph_of(v), '\'']
    } else {
        seq!['#'] + decimal(v as nat)
    };
    " Char: "@ + shown + " | Dec: "@ + decimal(v as nat) + " | Hex: "@ + pad_left(in_base(v as nat, 16), 2, '0')
        + " | Oct: "@ + pad_left(in_base(v as nat, 8), 3, '0')
}

/// The line describing value `v`.
pub fn info_line(v: u8) -> (r: String)
    ensures
        r@ == info_line_of(v),
{
    let mut r = owned(" Char: ");
    if 32 <= v && v < 127 {
        push_char(&mut r, '\'');
        push_char(&mut r, glyph(v));
        push_char(&mut r, '\'');
    } else {
        push_char(&mut r, '#');
        let d = u64_to_decimal(v as u64);
        append_str(&mut r, d.as_str());
    }
    append_str(&mut r, " | Dec: ");
    let d = u64_to_decimal(v as u64);
    append_str(&mut r, d.as_str());
    append_str(&mut r, " | Hex: ");
    push_padded(&mut r, v as u64, 16, 2);
    append_str(&mut r, " | Oct: ");
    push_padded(&mut r, v as u64, 8, 3);
    assert(r@ =~= info_line_of(v));
    r
}

/// The table with the cursor on byte value `cursor`.
pub struct AsciiTable {
    pub cursor: u8,
}

/// `c` moved by `d` places, wrapping around the 256 values.
pub open spec fn moved(c: u8, d: int) -> u8 {
    ((c as int + d) % 256) as u8
}

impl AsciiTable {
    /// The table with the cursor on 0.
    pub fn new() -> (t: AsciiTable)
        ensures
            t.cursor == 0,
    {
        AsciiTable { cursor: 0 }
    }

    /// Up arrow: the value one row (16) earlier, wrapping around.
    pub fn cursor_up(&mut self)
        ensures
            final(self).cursor == moved(old(self).cursor, -16),
    {
        self.cursor = if self.cursor >= 16 {
            self.cursor - 16
        } else {
            self.cursor + 240
        };
    }

    /// Down arrow: the value one row (16) later, wrapping around.
    pub fn cursor_down(&mut self)
        ensures
            final(self).cursor == moved(old(self).cursor, 16),
    {
        self.cursor = if self.cursor < 240 {
            self.cursor + 16
        } else {
            self.cursor - 240
        };
    }

    /// Left arrow: the previous value, wrapping around.
    pub fn cursor_left(&mut self)
        ensures
            final(self).cursor == moved(old(self).cursor, -1),
    {
        self.cursor = if self.cursor >= 1 {
            self.cursor - 1
        } else {
            255
        };
    }

    /// Right arrow: the next value, wrapping around.
    pub fn cursor_right(&mut self)
        ensures
            final(self).cursor == moved(old(self).cursor, 1),
    {
        self.cursor = if self.cursor < 255 {
            self.cursor + 1
        } else {
            0
        };
    }
}

/// A move and the opposite move come back to the same value.
pub proof fn lemma_moves_undo(c: u8, d: int)
    requires
        -256 < d < 256,
    ensures
        moved(moved(c, d), -d) == c,
{
    let m = (c as int + d) % 256;
    assert(0 <= m < 256);
    assert((m - d) % 256 == c as int) by {
        assert(c as int + d == 256 * ((c as int + d) / 256) + m);
    }
}

} // verus!
