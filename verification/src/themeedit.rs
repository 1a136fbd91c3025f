//! The theme editor: the colours of every interface slot, edited one slot
//! at a time and then applied to the theme.

use vstd::prelude::*;
use crate::theme::{lemma_set_then_get, slot_colors, slot_default, slot_default_exec, Theme, NUM_SLOTS};

verus! {

/// The editor: the slot under the cursor and the edited foreground and
/// background palette colours of each slot.
pub struct ThemeEditor {
    pub cursor: u8,
    pub fg: Vec<u8>,
    pub bg: Vec<u8>,
}

/// The next palette colour, after 15 comes 0.
pub open spec fn next_colour(c: u8) -> u8 {
    ((c as int + 1) % 16) as u8
}

/// The previous palette colour, before 0 comes 15.
pub open spec fn prev_colour(c: u8) -> u8 {
    ((c as int + 15) % 16) as u8
}

fn next_colour_exec(c: u8) -> (r: u8)
    ensures
        r == next_colour(c),
{
    (c % 16 + 1) % 16
}

fn prev_colour_exec(c: u8) -> (r: u8)
    ensures
        r == prev_colour(c),
{
    (c % 16 + 15) % 16
}

impl ThemeEditor {
    /// One colour pair per slot, the cursor on a slot.
    pub open spec fn wf(&self) -> bool {
        &&& self.fg@.len() == NUM_SLOTS
        &&& self.bg@.len() == NUM_SLOTS
        &&& self.cursor < NUM_SLOTS
    }

    /// The colours of slot `i` as edited.
    pub open spec fn colours(&self, i: int) -> (u8, u8) {
        (self.fg@[i], self.bg@[i])
    }

    /// Every slot at its defaults, the cursor on the first.
    pub fn new() -> (e: ThemeEditor)
        ensures
            e.wf(),
            e.cursor == 0,
            forall|i: int| 0 <= i < NUM_SLOTS ==> #[trigger] e.colours(i) == slot_default(i),
    {
        let mut fg: Vec<u8> = Vec::new();
        let mut bg: Vec<u8> = Vec::new();
        let mut i: u8 = 0;
        while i < NUM_SLOTS
            invariant
                i <= NUM_SLOTS,
                fg@.len() == i,
                bg@.len() == i,
                forall|k: int| 0 <= k < i ==> (fg@[k], bg@[k]) == #[trigger] slot_default(k),
            decreases NUM_SLOTS - i,
        {
            let (f, b) = slot_default_exec(i);
            fg.push(f);
            bg.push(b);
            i += 1;
        }
        ThemeEditor { cursor: 0, fg, bg }
    }

    /// The colours the theme shows now, the cursor on the first slot.
    pub fn from_theme(theme: &Theme) -> (e: ThemeEditor)
        ensures
            e.wf(),
            e.cursor == 0,
            forall|i: u8| i < NUM_SLOTS ==> #[trigger] e.colours(i as int) == slot_colors(theme.overrides@, i),
    {
        let mut fg: Vec<u8> = Vec::new();
        let mut bg: Vec<u8> = Vec::new();
        let mut i: u8 = 0;
        while i < NUM_SLOTS
            invariant
                i <= NUM_SLOTS,
                fg@.len() == i,
                bg@.len() == i,
                forall|k: u8| k < i ==> (fg@[k as int], bg@[k as int]) == #[trigger] slot_colors(theme.overrides@, k),
            decreases NUM_SLOTS - i,
        {
            let (f, b) = theme.slot_indices(i);
            fg.push(f);
            bg.push(b);
            i += 1;
        }
        ThemeEditor { cursor: 0, fg, bg }
    }

    /// Up arrow: the slot above, if any.
    pub fn cursor_up(&mut self)
        requires
            old(self).wf(),
        ensures
            final(self).wf(),
            final(self).cursor == if old(self).cursor > 0 { (old(self).cursor - 1) as u8 } else { 0 },
            final(self).fg@ == old(self).fg@,
            final(self).bg@ == old(self).bg@,
    {
        if self.cursor > 0 {
            self.cursor -= 1;
        }
    }

    /// Down arrow: the slot below, if any.
    pub fn cursor_down(&mut self)
        requires
            old(self).wf(),
        ensures
            final(self).wf(),
            final(self).cursor == if old(self).cursor + 1 < NUM_SLOTS {
                (old(self).cursor + 1) as u8
            } else {
                old(self).cursor
            },
            final(self).fg@ == old(self).fg@,
            final(self).bg@ == old(self).bg@,
    {
        if self.cursor + 1 < NUM_SLOTS {
            self.cursor += 1;
        }
    }

    /// Right arrow: the next foreground colour for the slot under the cursor.
    pub fn fg_next(&mut self)
        requires
            old(self).wf(),
        ensures
            final(self).wf(),
            final(self).cursor == old(self).cursor,
            final(self).fg@ == old(self).fg@.update(old(self).cursor as int, next_colour(old(self).fg@[old(self).cursor as int])),
            final(self).bg@ == old(self).bg@,
    {
        let i = self.cursor as usize;
        let c = next_colour_exec(self.fg[i]);
        self.fg.set(i, c);
    }

    /// Left arrow: the previous foreground colour.
    pub fn fg_prev(&mut self)
        requires
            old(self).wf(),
        ensures
            final(self).wf(),
            final(self).cursor == old(self).cursor,
            final(self).fg@ == old(self).fg@.update(old(self).cursor as int, prev_colour(old(self).fg@[old(self).cursor as int])),
            final(self).bg@ == old(self).bg@,
    {
        let i = self.cursor as usize;
        let c = prev_colour_exec(self.fg[i]);
        self.fg.set(i, c);
    }

    /// `b` or F4: the next background colour.
    pub fn bg_next(&mut self)
        requires
            old(self).wf(),
        ensures
            final(self).wf(),
            final(self).cursor == old(self).cursor,
            final(self).bg@ == old(self).bg@.update(old(self).cursor as int, next_colour(old(self).bg@[old(self).cursor as int])),
            final(self).fg@ == old(self).fg@,
    {
        let i = self.cursor as usize;
        let c = next_colour_exec(self.bg[i]);
        self.bg.set(i, c);
    }

    /// F3: the previous background colour.
    pub fn bg_prev(&mut self)
        requires
            old(self).wf(),
        ensures
            final(self).wf(),
            final(self).cursor == old(self).cursor,
            final(self).bg@ == old(self).bg@.update(old(self).cursor as int, prev_colour(old(self).bg@[old(self).cursor as int])),
            final(self).fg@ == old(self).fg@,
    {
        let i = self.cursor as usize;
        let c = prev_colour_exec(self.bg[i]);
        self.bg.set(i, c);
    }

    /// Delete: the slot under the cursor back to its defaults.
    pub fn reset_slot(&mut self)
        requires
            old(self).wf(),
        ensures
            final(self).wf(),
            final(self).cursor == old(self).cursor,
            final(self).fg@ == old(self).fg@.update(old(self).cursor as int, slot_default(old(self).cursor as int).0),
            final(self).bg@ == old(self).bg@.update(old(self).cursor as int, slot_default(old(self).cursor as int).1),
    {
        let i = self.cursor as usize;
        let (f, b) = slot_default_exec(self.cursor);
        self.fg.set(i, f);
        self.bg.set(i, b);
    }

    /// Enter: sets every slot of `theme` to its edited colours.
    pub fn apply(&self, theme: &mut Theme)
        requires
            self.wf(),
            old(theme).wf(),
        ensures
            final(theme).wf(),
            forall|i: u8| i < NUM_SLOTS ==> #[trigger] slot_colors(final(theme).overrides@, i) == self.colours(i as int),
            forall|j: u8| j >= NUM_SLOTS ==> #[trigger] slot_colors(final(theme).overrides@, j) == slot_colors(old(theme).overrides@, j),
    {
        let ghost start = theme.overrides@;
        let mut i: u8 = 0;
        while i < NUM_SLOTS
            invariant
                i <= NUM_SLOTS,
                self.wf(),
                theme.wf(),
                forall|k: u8| k < i ==> #[trigger] slot_colors(theme.overrides@, k) == self.colours(k as int),
                forall|j: u8| j >= i ==> #[trigger] slot_colors(theme.overrides@, j) == slot_colors(start, j),
            decreases NUM_SLOTS - i,
        {
            let ghost before = theme.overrides@;
            let f = self.fg[i as usize];
            let b = self.bg[i as usize];
            theme.set_slot(i, f, b);
            proof {
                lemma_set_then_get(before, i, f, b);
            }
            i += 1;
        }
    }
}

/// A colour step and the opposite step give back the colour.
pub proof fn lemma_colour_steps(c: u8)
    requires
        c < 16,
    ensures
        prev_colour(next_colour(c)) == c,
        next_colour(prev_colour(c)) == c,
{
}

} // verus!
