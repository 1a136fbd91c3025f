//! Editing the attributes of a file: the read-only flag and the nine Unix
//! permission bits (read, write, execute for owner, group and others).

use vstd::prelude::*;
use crate::numfmt::{in_base, u64_to_octal};
use crate::text::{append_str, owned};

verus! {

/// Whether bit `b` of `mode` is set.
pub open spec fn bit_is_set(mode: u32, b: u32) -> bool {
    (mode >> b) & 1 == 1
}

/// The permission bit a cursor line (1 to 9) stands for: owner read is
/// bit 8, ..., others execute bit 0.
pub open spec fn line_bit(cursor: u8) -> u32 {
    (9 - cursor) as u32
}

/// Whether bit `b` of `mode` is set.
pub fn permission_set(mode: u32, b: u32) -> (r: bool)
    requires
        b < 32,
    ensures
        r == bit_is_set(mode, b),
{
    (mode >> b) & 1 == 1
}

/// The attributes dialog: the file, its mode bits and read-only flag as
/// edited so far, and the line under the cursor (0 the read-only flag,
/// 1 to 9 the permission bits from owner read to others execute).
pub struct AttributesEdit {
    pub path: String,
    pub mode: u32,
    pub readonly: bool,
    pub cursor: u8,
}

impl AttributesEdit {
    /// The cursor is on one of the ten lines.
    pub open spec fn wf(&self) -> bool {
        self.cursor <= 9
    }

    /// The dialog for a file with `mode` and `readonly`, cursor on the first line.
    pub fn new(path: String, mode: u32, readonly: bool) -> (a: AttributesEdit)
        ensures
            a.wf(),
            a.path@ == path@,
            a.mode == mode,
            a.readonly == readonly,
            a.cursor == 0,
    {
        AttributesEdit { path, mode, readonly, cursor: 0 }
    }

    /// Up arrow: the line above, if any.
    pub fn cursor_up(&mut self)
        ensures
            final(self).cursor == if old(self).cursor > 0 { (old(self).cursor - 1) as u8 } else { 0 },
            final(self).mode == old(self).mode,
            final(self).readonly == old(self).readonly,
            final(self).path == old(self).path,
    {
        if self.cursor > 0 {
            self.cursor -= 1;
        }
    }

    /// Down arrow: the line below, if any.
    pub fn cursor_down(&mut self)
        ensures
            final(self).cursor == if old(self).cursor < 9 { (old(self).cursor + 1) as u8 } else { old(self).cursor },
            final(self).mode == old(self).mode,
            final(self).readonly == old(self).readonly,
            final(self).path == old(self).path,
    {
        if self.cursor < 9 {
            self.cursor += 1;
        }
    }

    /// Space: flips the read-only flag on line 0, else the permission bit
    /// of the line.
    pub fn toggle(&mut self)
        requires
            old(self).wf(),
        ensures
            final(self).wf(),
            final(self).cursor == old(self).cursor,
            final(self).path == old(self).path,
            old(self).cursor == 0 ==> final(self).readonly == !old(self).readonly && final(self).mode
                == old(self).mode,
            old(self).cursor > 0 ==> final(self).readonly == old(self).readonly && final(self).mode
                == old(self).mode ^ (1u32 << line_bit(old(self).cursor)),
    {
        if self.cursor == 0 {
            self.readonly = !self.readonly;
        } else {
            let bit_index: u32 = 9 - self.cursor as u32;
            let bit: u32 = 1u32 << bit_index;
            self.mode = self.mode ^ bit;
        }
    }
}

/// Flipping the bit of a line changes that bit and no other, and flipping
/// it twice gives back the mode.
pub proof fn lemma_toggle_bit(mode: u32, cursor: u8)
    requires
        1 <= cursor <= 9,
    ensures
        bit_is_set(mode ^ (1u32 << line_bit(cursor)), line_bit(cursor)) == !bit_is_set(mode, line_bit(cursor)),
        forall|b: u32| b < 32 && b != line_bit(cursor) ==> bit_is_set(mode ^ (1u32 << line_bit(cursor)), b)
            == #[trigger] bit_is_set(mode, b),
        (mode ^ (1u32 << line_bit(cursor))) ^ (1u32 << line_bit(cursor)) == mode,
{
    let k = line_bit(cursor);
    assert(k < 9);
    assert(((mode ^ (1u32 << k)) >> k) & 1 == 1 <==> !((mode >> k) & 1 == 1)) by (bit_vector)
        requires
            k < 9,
    ;
    assert forall|b: u32| b < 32 && b != k implies bit_is_set(mode ^ (1u32 << k), b) == #[trigger] bit_is_set(mode, b) by {
        assert(((mode ^ (1u32 << k)) >> b) & 1 == (mode >> b) & 1) by (bit_vector)
            requires
                k < 9,
                b < 32,
                b != k,
        ;
    }
    assert((mode ^ (1u32 << k)) ^ (1u32 << k) == mode) by (bit_vector);
}

/// The report after setting permissions: "Permissions set: " and the mode
/// in octal.
pub fn permissions_report(mode: u32) -> (r: String)
    ensures
        r@ == "Permissions set: "@ + in_base(mode as nat, 8),
{
    let mut r = owned("Permissions set: ");
    let o = u64_to_octal(mode as u64);
    append_str(&mut r, o.as_str());
    r
}

} // verus!
