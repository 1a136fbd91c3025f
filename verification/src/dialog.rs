//! The keys of the dialog boxes over the panels: what a key does to the box
//! and whether the box closes, with or without doing what it asks.

use vstd::prelude::*;
use crate::attributes::{line_bit, AttributesEdit};
use crate::keys::Key;
use crate::text::{chars_of, push_char, string_of};
use crate::types::{DialogKind, SortMode};

verus! {

broadcast use vstd::string::group_string_axioms;

/// What a key in a dialog box leads to.
#[derive(Clone, Copy, Debug, PartialEq, Eq, Structural)]
pub enum DialogAnswer {
    /// The box stays open.
    Stay,
    /// The box closes and nothing is done.
    Cancel,
    /// The box closes and what it asks for is done.
    Accept,
}

/// A text with its last character taken off (an empty text stays empty).
pub open spec fn without_last(s: Seq<char>) -> Seq<char> {
    if s.len() == 0 {
        s
    } else {
        s.drop_last()
    }
}

/// The answer of an input box to a key: Enter accepts, Esc cancels.
pub open spec fn input_answer(key: Key) -> DialogAnswer {
    match key {
        Key::Enter => DialogAnswer::Accept,
        Key::Esc => DialogAnswer::Cancel,
        _ => DialogAnswer::Stay,
    }
}

/// The text of an input box after a key: Backspace takes off the last
/// character, a character key appends it, other keys leave it.
pub open spec fn input_edited(text: Seq<char>, key: Key) -> Seq<char> {
    match key {
        Key::Backspace => without_last(text),
        Key::Char(c) => text.push(c),
        _ => text,
    }
}

/// Typing a character into an input box and then Backspace gives back
/// the text as it was.
pub proof fn lemma_type_then_backspace(text: Seq<char>, c: char)
    ensures
        input_edited(input_edited(text, Key::Char(c)), Key::Backspace) == text,
{
    assert(text.push(c).drop_last() =~= text);
}

/// The answer of a yes/no box: Enter, `y` or `Y` accept; Esc, `n` or `N`
/// cancel.
pub open spec fn confirm_answer(key: Key) -> DialogAnswer {
    match key {
        Key::Enter => DialogAnswer::Accept,
        Key::Esc => DialogAnswer::Cancel,
        Key::Char(c) => if c == 'y' || c == 'Y' {
            DialogAnswer::Accept
        } else if c == 'n' || c == 'N' {
            DialogAnswer::Cancel
        } else {
            DialogAnswer::Stay
        },
        _ => DialogAnswer::Stay,
    }
}

/// The answer of a message box: Enter or Esc close it.
pub open spec fn message_answer(key: Key) -> DialogAnswer {
    match key {
        Key::Enter | Key::Esc => DialogAnswer::Cancel,
        _ => DialogAnswer::Stay,
    }
}

/// The attributes box after a key: the arrows move the cursor within the
/// ten lines, Space flips the line under the cursor, other keys change
/// nothing.
pub open spec fn attributes_after(a: AttributesEdit, key: Key) -> AttributesEdit {
    match key {
        Key::Up => AttributesEdit { cursor: if a.cursor > 0 { (a.cursor - 1) as u8 } else { 0 }, ..a },
        Key::Down => AttributesEdit { cursor: if a.cursor < 9 { (a.cursor + 1) as u8 } else { a.cursor }, ..a },
        Key::Char(c) => if c == ' ' {
            if a.cursor == 0 {
                AttributesEdit { readonly: !a.readonly, ..a }
            } else {
                AttributesEdit { mode: a.mode ^ (1u32 << line_bit(a.cursor)), ..a }
            }
        } else {
            a
        },
        _ => a,
    }
}

/// The answer of the attributes box: Enter applies, Esc cancels.
pub open spec fn attributes_answer(key: Key) -> DialogAnswer {
    input_answer(key)
}

/// A key in an input box: edits the text and answers.
pub fn input_key(value: &mut String, key: Key) -> (a: DialogAnswer)
    ensures
        a == input_answer(key),
        final(value)@ == input_edited(old(value)@, key),
{
    match key {
        Key::Enter => DialogAnswer::Accept,
        Key::Esc => DialogAnswer::Cancel,
        Key::Backspace => {
            let chars = chars_of(value.as_str());
            if chars.len() > 0 {
                let shorter = string_of(chars.as_slice(), 0, chars.len() - 1);
                assert(shorter@ =~= old(value)@.drop_last());
                *value = shorter;
            }
            DialogAnswer::Stay
        },
        Key::Char(c) => {
            push_char(value, c);
            DialogAnswer::Stay
        },
        _ => DialogAnswer::Stay,
    }
}

/// The text of a line-number prompt after a key: as in an input box, but
/// only the digits `0` to `9` are typed.
pub open spec fn number_edited(text: Seq<char>, key: Key) -> Seq<char> {
    match key {
        Key::Char(c) => if '0' <= c && c <= '9' { text.push(c) } else { text },
        _ => input_edited(text, key),
    }
}

/// A key in a line-number prompt: edits the digits and answers.
pub fn number_key(value: &mut String, key: Key) -> (a: DialogAnswer)
    ensures
        a == input_answer(key),
        final(value)@ == number_edited(old(value)@, key),
{
    match key {
        Key::Char(c) => {
            if '0' <= c && c <= '9' {
                push_char(value, c);
            }
            DialogAnswer::Stay
        },
        _ => input_key(value, key),
    }
}

/// A key in a yes/no box.
pub fn confirm_key(key: Key) -> (a: DialogAnswer)
    ensures
        a == confirm_answer(key),
{
    match key {
        Key::Enter => DialogAnswer::Accept,
        Key::Esc => DialogAnswer::Cancel,
        Key::Char(c) => {
            if c == 'y' || c == 'Y' {
                DialogAnswer::Accept
            } else if c == 'n' || c == 'N' {
                DialogAnswer::Cancel
            } else {
                DialogAnswer::Stay
            }
        },
        _ => DialogAnswer::Stay,
    }
}

/// A key in a message box.
pub fn message_key(key: Key) -> (a: DialogAnswer)
    ensures
        a == message_answer(key),
{
    match key {
        Key::Enter | Key::Esc => DialogAnswer::Cancel,
        _ => DialogAnswer::Stay,
    }
}

/// A key in the attributes box: moves the cursor or flips a line, and
/// answers.
pub fn attributes_key(a: &mut AttributesEdit, key: Key) -> (r: DialogAnswer)
    requires
        old(a).wf(),
    ensures
        r == attributes_answer(key),
        *final(a) == attributes_after(*old(a), key),
        final(a).wf(),
{
    match key {
        Key::Enter => DialogAnswer::Accept,
        Key::Esc => DialogAnswer::Cancel,
        Key::Up => {
            a.cursor_up();
            DialogAnswer::Stay
        },
        Key::Down => {
            a.cursor_down();
            DialogAnswer::Stay
        },
        Key::Char(c) => {
            if c == ' ' {
                a.toggle();
            }
            DialogAnswer::Stay
        },
        _ => DialogAnswer::Stay,
    }
}

/// What a key does to a dialog box: the box after it (an input box with
/// its text edited; the others unchanged) and the answer.
pub open spec fn dialog_stepped(d: DialogKind, key: Key, next: DialogKind, a: DialogAnswer) -> bool {
    match d {
        DialogKind::Confirm { .. } => next == d && a == confirm_answer(key),
        DialogKind::Input { title, prompt, value, op } => {
            &&& a == input_answer(key)
            &&& next matches DialogKind::Input { title: t, prompt: p, value: v, op: o }
            &&& t == title && p == prompt && o == op
            &&& v@ == input_edited(value@, key)
        },
        DialogKind::Error(_) | DialogKind::FileInfo => next == d && a == message_answer(key),
    }
}

/// A key in a dialog box: the box after the key and the answer.
pub fn dialog_step(d: DialogKind, key: Key) -> (r: (DialogKind, DialogAnswer))
    ensures
        dialog_stepped(d, key, r.0, r.1),
{
    match d {
        DialogKind::Confirm { title, message, op } => {
            let a = confirm_key(key);
            (DialogKind::Confirm { title, message, op }, a)
        },
        DialogKind::Input { title, prompt, value, op } => {
            let mut value = value;
            let a = input_key(&mut value, key);
            (DialogKind::Input { title, prompt, value, op }, a)
        },
        DialogKind::Error(text) => {
            let a = message_key(key);
            (DialogKind::Error(text), a)
        },
        DialogKind::FileInfo => {
            let a = message_key(key);
            (DialogKind::FileInfo, a)
        },
    }
}

/// The sort mode a letter picks in the sort menu: `n` name, `e`
/// extension, `s` size, `d` date, in either case.
pub open spec fn sort_choice(c: char) -> Option<SortMode> {
    if c == 'n' || c == 'N' {
        Some(SortMode::Name)
    } else if c == 'e' || c == 'E' {
        Some(SortMode::Extension)
    } else if c == 's' || c == 'S' {
        Some(SortMode::Size)
    } else if c == 'd' || c == 'D' {
        Some(SortMode::Date)
    } else {
        None
    }
}

/// The answer of the sort menu and the mode picked: a letter of a mode
/// picks it, Esc cancels, other keys leave the menu open.
pub open spec fn sort_menu_answer(key: Key) -> (DialogAnswer, Option<SortMode>) {
    match key {
        Key::Esc => (DialogAnswer::Cancel, None),
        Key::Char(c) => match sort_choice(c) {
            Some(m) => (DialogAnswer::Accept, Some(m)),
            None => (DialogAnswer::Stay, None),
        },
        _ => (DialogAnswer::Stay, None),
    }
}

/// A key in the sort menu.
pub fn sort_menu_key(key: Key) -> (r: (DialogAnswer, Option<SortMode>))
    ensures
        r == sort_menu_answer(key),
{
    match key {
        Key::Esc => (DialogAnswer::Cancel, None),
        Key::Char(c) => {
            if c == 'n' || c == 'N' {
                (DialogAnswer::Accept, Some(SortMode::Name))
            } else if c == 'e' || c == 'E' {
                (DialogAnswer::Accept, Some(SortMode::Extension))
            } else if c == 's' || c == 'S' {
                (DialogAnswer::Accept, Some(SortMode::Size))
            } else if c == 'd' || c == 'D' {
                (DialogAnswer::Accept, Some(SortMode::Date))
            } else {
                (DialogAnswer::Stay, None)
            }
        },
        _ => (DialogAnswer::Stay, None),
    }
}

/// The confirmations box: which questions are asked (before deleting,
/// before overwriting, before quitting) and the line under the cursor.
#[derive(Clone, Copy, Debug, PartialEq, Eq, Structural)]
pub struct ConfirmSettings {
    pub cursor: u8,
    pub delete: bool,
    pub overwrite: bool,
    pub exit: bool,
}

/// The confirmations box after a key: the arrows move over the three lines,
/// Enter or Space flips the line under the cursor.
pub open spec fn confirm_settings_after(s: ConfirmSettings, key: Key) -> ConfirmSettings {
    let flip = key == Key::Enter || key == Key::Char(' ');
    match key {
        Key::Up => ConfirmSettings { cursor: if s.cursor > 0 { (s.cursor - 1) as u8 } else { 0 }, ..s },
        Key::Down => ConfirmSettings { cursor: if s.cursor < 2 { (s.cursor + 1) as u8 } else { 2 }, ..s },
        _ => if flip {
            if s.cursor == 0 {
                ConfirmSettings { delete: !s.delete, ..s }
            } else if s.cursor == 1 {
                ConfirmSettings { overwrite: !s.overwrite, ..s }
            } else if s.cursor == 2 {
                ConfirmSettings { exit: !s.exit, ..s }
            } else {
                s
            }
        } else {
            s
        },
    }
}

/// The answer of the confirmations box: Esc or F10 close it.
pub open spec fn confirm_settings_answer(key: Key) -> DialogAnswer {
    if key == Key::Esc || key == Key::F(10) {
        DialogAnswer::Cancel
    } else {
        DialogAnswer::Stay
    }
}

impl ConfirmSettings {
    /// A key in the confirmations box.
    pub fn key(&mut self, key: Key) -> (a: DialogAnswer)
        ensures
            a == confirm_settings_answer(key),
            *final(self) == confirm_settings_after(*old(self), key),
    {
        match key {
            Key::Esc => DialogAnswer::Cancel,
            Key::F(n) => {
                if n == 10 {
                    DialogAnswer::Cancel
                } else {
                    DialogAnswer::Stay
                }
            },
            Key::Up => {
                self.cursor = if self.cursor > 0 { self.cursor - 1 } else { 0 };
                DialogAnswer::Stay
            },
            Key::Down => {
                self.cursor = if self.cursor < 2 { self.cursor + 1 } else { 2 };
                DialogAnswer::Stay
            },
            _ => {
                let flip = match key {
                    Key::Enter => true,
                    Key::Char(c) => c == ' ',
                    _ => false,
                };
                if flip {
                    if self.cursor == 0 {
                        self.delete = !self.delete;
                    } else if self.cursor == 1 {
                        self.overwrite = !self.overwrite;
                    } else if self.cursor == 2 {
                        self.exit = !self.exit;
                    }
                }
                DialogAnswer::Stay
            },
        }
    }
}

/// Flipping a line of the confirmations box twice gives back the box.
pub proof fn lemma_confirm_flip_twice(s: ConfirmSettings)
    ensures
        confirm_settings_after(confirm_settings_after(s, Key::Char(' ')), Key::Char(' ')) == s,
        confirm_settings_after(confirm_settings_after(s, Key::Enter), Key::Enter) == s,
{
}

} // verus!
