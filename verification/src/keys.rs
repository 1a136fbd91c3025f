//! Key bindings: which command a key stands for in the file panels and in
//! the editor.

use vstd::prelude::*;
use crate::text::{alphabetic, alphanumeric, is_alphabetic, is_alphanumeric};

verus! {

/// A key as the terminal reports it.
#[derive(Clone, Copy, Debug, PartialEq, Eq, Structural)]
pub enum Key {
    Char(char),
    F(u8),
    Up,
    Down,
    Left,
    Right,
    Home,
    End,
    PageUp,
    PageDown,
    Enter,
    Backspace,
    Tab,
    Insert,
    Delete,
    Esc,
    Other,
}

/// The modifier keys held.
#[derive(Clone, Copy, Debug, PartialEq, Eq, Structural)]
pub struct Mods {
    pub ctrl: bool,
    pub alt: bool,
    pub shift: bool,
}

/// What a key does in the file panels.
#[derive(Clone, Copy, Debug, PartialEq, Eq, Structural)]
pub enum PanelCommand {
    CursorUp,
    CursorDown,
    CursorHome,
    CursorEnd,
    PageUp,
    PageDown,
    Enter,
    GoUp,
    SwitchPanel,
    /// Toggle the selection of the current entry, then move down.
    ToggleSelect,
    Help,
    DriveSelect,
    UserMenu,
    SplitFile,
    View,
    EditNew,
    CombineFiles,
    Edit,
    CountDirSizes,
    Copy,
    QuickRename,
    Move,
    FindFile,
    MakeDir,
    Delete,
    AsciiTable,
    Menu,
    DirTree,
    Quit,
    PanelFilter,
    DirHistory,
    CompareDirs,
    DiskInfo,
    /// Go to bookmark 0 to 8.
    GotoBookmark(u8),
    /// Remember the directory in bookmark 0 to 8.
    SetBookmark(u8),
    /// Start a quick search with this character.
    QuickSearch(char),
    Tetris,
    Refresh,
    UserScreen,
    ToggleHidden,
    SwapPanels,
    SyncPanels,
    SystemInfo,
    Calculator,
    TouchFile,
    MakeFileList,
    FileHistory,
    ThemeEditor,
    Branch,
    QuickView,
    EnvViewer,
    SelectGroup,
    UnselectGroup,
    InvertSelection,
    Nothing,
}

/// The bookmark number of a digit `1` to `9`: 0 to 8.
pub open spec fn digit_slot(c: char) -> u8 {
    ((c as u32) - ('1' as u32)) as u8
}

/// Whether `c` is a digit `1` to `9`.
pub open spec fn slot_digit(c: char) -> bool {
    '1' <= c && c <= '9'
}

/// The command of a key in the file panels.
pub open spec fn panel_binding(key: Key, mods: Mods) -> PanelCommand {
    match key {
        Key::Up => PanelCommand::CursorUp,
        Key::Down => PanelCommand::CursorDown,
        Key::Home => PanelCommand::CursorHome,
        Key::End => PanelCommand::CursorEnd,
        Key::PageUp => PanelCommand::PageUp,
        Key::PageDown => PanelCommand::PageDown,
        Key::Enter => PanelCommand::Enter,
        Key::Backspace => PanelCommand::GoUp,
        Key::Tab => PanelCommand::SwitchPanel,
        Key::Insert => PanelCommand::ToggleSelect,
        Key::F(n) => if n == 1 {
            if mods.alt { PanelCommand::DriveSelect } else { PanelCommand::Help }
        } else if n == 2 {
            if mods.alt { PanelCommand::DriveSelect } else { PanelCommand::UserMenu }
        } else if n == 3 {
            if mods.ctrl { PanelCommand::SplitFile } else { PanelCommand::View }
        } else if n == 4 {
            if mods.shift {
                PanelCommand::EditNew
            } else if mods.ctrl {
                PanelCommand::CombineFiles
            } else {
                PanelCommand::Edit
            }
        } else if n == 5 {
            if mods.ctrl { PanelCommand::CountDirSizes } else { PanelCommand::Copy }
        } else if n == 6 {
            if mods.shift { PanelCommand::QuickRename } else { PanelCommand::Move }
        } else if n == 7 {
            if mods.alt { PanelCommand::FindFile } else { PanelCommand::MakeDir }
        } else if n == 8 {
            PanelCommand::Delete
        } else if n == 9 {
            if mods.alt { PanelCommand::AsciiTable } else { PanelCommand::Menu }
        } else if n == 10 {
            if mods.alt { PanelCommand::DirTree } else { PanelCommand::Quit }
        } else if n == 11 {
            PanelCommand::PanelFilter
        } else if n == 12 {
            if mods.alt { PanelCommand::DirHistory } else { PanelCommand::PanelFilter }
        } else {
            PanelCommand::Nothing
        },
        Key::Char(c) => if mods.alt {
            if c == 'x' || c == 'X' || c == 'q' || c == 'Q' {
                PanelCommand::Quit
            } else if c == 'c' || c == 'C' {
                PanelCommand::CompareDirs
            } else if c == 'i' || c == 'I' {
                PanelCommand::DiskInfo
            } else if slot_digit(c) {
                PanelCommand::GotoBookmark(digit_slot(c))
            } else if alphabetic(c) {
                PanelCommand::QuickSearch(c)
            } else {
                PanelCommand::Nothing
            }
        } else if mods.ctrl {
            if c == 'q' {
                PanelCommand::Quit
            } else if c == 'g' {
                PanelCommand::Tetris
            } else if c == 'r' || c == 'l' {
                PanelCommand::Refresh
            } else if c == 'o' {
                PanelCommand::UserScreen
            } else if c == 'h' {
                PanelCommand::ToggleHidden
            } else if c == 'u' {
                PanelCommand::SwapPanels
            } else if c == 's' {
                PanelCommand::SyncPanels
            } else if c == 'i' {
                PanelCommand::SystemInfo
            } else if c == 'k' {
                PanelCommand::Calculator
            } else if c == 't' {
                PanelCommand::TouchFile
            } else if c == 'f' {
                PanelCommand::MakeFileList
            } else if c == 'y' {
                PanelCommand::FileHistory
            } else if c == 'w' {
                PanelCommand::ThemeEditor
            } else if c == 'b' {
                PanelCommand::Branch
            } else if c == 'p' {
                PanelCommand::QuickView
            } else if c == 'e' {
                PanelCommand::EnvViewer
            } else if slot_digit(c) {
                PanelCommand::SetBookmark(digit_slot(c))
            } else {
                PanelCommand::Nothing
            }
        } else if c == '+' {
            PanelCommand::SelectGroup
        } else if c == '-' {
            PanelCommand::UnselectGroup
        } else if c == '*' {
            PanelCommand::InvertSelection
        } else if alphanumeric(c) || c == '.' || c == '_' {
            PanelCommand::QuickSearch(c)
        } else {
            PanelCommand::Nothing
        },
        _ => PanelCommand::Nothing,
    }
}

fn function_key_command(n: u8, mods: Mods) -> (r: PanelCommand)
    ensures
        r == panel_binding(Key::F(n), mods),
{
    if n == 1 {
        if mods.alt { PanelCommand::DriveSelect } else { PanelCommand::Help }
    } else if n == 2 {
        if mods.alt { PanelCommand::DriveSelect } else { PanelCommand::UserMenu }
    } else if n == 3 {
        if mods.ctrl { PanelCommand::SplitFile } else { PanelCommand::View }
    } else if n == 4 {
        if mods.shift {
            PanelCommand::EditNew
        } else if mods.ctrl {
            PanelCommand::CombineFiles
        } else {
            PanelCommand::Edit
        }
    } else if n == 5 {
        if mods.ctrl { PanelCommand::CountDirSizes } else { PanelCommand::Copy }
    } else if n == 6 {
        if mods.shift { PanelCommand::QuickRename } else { PanelCommand::Move }
    } else if n == 7 {
        if mods.alt { PanelCommand::FindFile } else { PanelCommand::MakeDir }
    } else if n == 8 {
        PanelCommand::Delete
    } else if n == 9 {
        if mods.alt { PanelCommand::AsciiTable } else { PanelCommand::Menu }
    } else if n == 10 {
        if mods.alt { PanelCommand::DirTree } else { PanelCommand::Quit }
    } else if n == 11 {
        PanelCommand::PanelFilter
    } else if n == 12 {
        if mods.alt { PanelCommand::DirHistory } else { PanelCommand::PanelFilter }
    } else {
        PanelCommand::Nothing
    }
}

fn slot_of_digit(c: char) -> (r: u8)
    requires
        slot_digit(c),
    ensures
        r == digit_slot(c),
{
    let u: u32 = c as u32 - '1' as u32;
    u as u8
}

fn ctrl_char_command(c: char) -> (r: PanelCommand)
    ensures
        r == panel_binding(Key::Char(c), Mods { ctrl: true, alt: false, shift: false }),
{
    if c == 'q' {
        PanelCommand::Quit
    } else if c == 'g' {
        PanelCommand::Tetris
    } else if c == 'r' || c == 'l' {
        PanelCommand::Refresh
    } else if c == 'o' {
        PanelCommand::UserScreen
    } else if c == 'h' {
        PanelCommand::ToggleHidden
    } else if c == 'u' {
        PanelCommand::SwapPanels
    } else if c == 's' {
        PanelCommand::SyncPanels
    } else if c == 'i' {
        PanelCommand::SystemInfo
    } else if c == 'k' {
        PanelCommand::Calculator
    } else if c == 't' {
        PanelCommand::TouchFile
    } else if c == 'f' {
        PanelCommand::MakeFileList
    } else if c == 'y' {
        PanelCommand::FileHistory
    } else if c == 'w' {
        PanelCommand::ThemeEditor
    } else if c == 'b' {
        PanelCommand::Branch
    } else if c == 'p' {
        PanelCommand::QuickView
    } else if c == 'e' {
        PanelCommand::EnvViewer
    } else if '1' <= c && c <= '9' {
        PanelCommand::SetBookmark(slot_of_digit(c))
    } else {
        PanelCommand::Nothing
    }
}

fn alt_char_command(c: char) -> (r: PanelCommand)
    ensures
        r == panel_binding(Key::Char(c), Mods { ctrl: false, alt: true, shift: false }),
{
    if c == 'x' || c == 'X' || c == 'q' || c == 'Q' {
        PanelCommand::Quit
    } else if c == 'c' || c == 'C' {
        PanelCommand::CompareDirs
    } else if c == 'i' || c == 'I' {
        PanelCommand::DiskInfo
    } else if '1' <= c && c <= '9' {
        PanelCommand::GotoBookmark(slot_of_digit(c))
    } else if is_alphabetic(c) {
        PanelCommand::QuickSearch(c)
    } else {
        PanelCommand::Nothing
    }
}

/// The command `key` with `mods` stands for in the file panels.
pub fn panel_command(key: Key, mods: Mods) -> (c: PanelCommand)
    ensures
        c == panel_binding(key, mods),
{
    match key {
        Key::Up => PanelCommand::CursorUp,
        Key::Down => PanelCommand::CursorDown,
        Key::Home => PanelCommand::CursorHome,
        Key::End => PanelCommand::CursorEnd,
        Key::PageUp => PanelCommand::PageUp,
        Key::PageDown => PanelCommand::PageDown,
        Key::Enter => PanelCommand::Enter,
        Key::Backspace => PanelCommand::GoUp,
        Key::Tab => PanelCommand::SwitchPanel,
        Key::Insert => PanelCommand::ToggleSelect,
        Key::F(n) => function_key_command(n, mods),
        Key::Char(c) => {
            if mods.alt {
                let r = alt_char_command(c);
                r
            } else if mods.ctrl {
                let r = ctrl_char_command(c);
                r
            } else if c == '+' {
                PanelCommand::SelectGroup
            } else if c == '-' {
                PanelCommand::UnselectGroup
            } else if c == '*' {
                PanelCommand::InvertSelection
            } else if is_alphanumeric(c) || c == '.' || c == '_' {
                PanelCommand::QuickSearch(c)
            } else {
                PanelCommand::Nothing
            }
        },
        _ => PanelCommand::Nothing,
    }
}

/// What a key does in the editor while no prompt is open.
#[derive(Clone, Copy, Debug, PartialEq, Eq, Structural)]
pub enum EditorCommand {
    Close,
    Save,
    SearchPrompt,
    ReplacePrompt,
    GotoLinePrompt,
    DeleteLine,
    CursorUp,
    CursorDown,
    CursorLeft,
    CursorRight,
    WordLeft,
    WordRight,
    CursorHome,
    CursorEnd,
    GotoTop,
    GotoBottom,
    PageUp,
    PageDown,
    Enter,
    Backspace,
    DeleteChar,
    ToggleInsert,
    /// Type this character.
    Type(char),
    /// Type this character with Shift held: start a selection where there
    /// is none, type, then extend the selection to the cursor.
    ShiftType(char),
    Copy,
    Cut,
    Paste,
    Undo,
    Redo,
    SelectAll,
    FindNext,
    ToggleMacro,
    PlayMacro,
    Nothing,
}

/// The command of a letter typed with Ctrl in the editor.
pub open spec fn editor_ctrl_binding(c: char) -> EditorCommand {
    if c == 'c' {
        EditorCommand::Copy
    } else if c == 'x' {
        EditorCommand::Cut
    } else if c == 'v' {
        EditorCommand::Paste
    } else if c == 'z' {
        EditorCommand::Undo
    } else if c == 'y' {
        EditorCommand::Redo
    } else if c == 'a' {
        EditorCommand::SelectAll
    } else if c == 'k' {
        EditorCommand::DeleteLine
    } else if c == 'r' {
        EditorCommand::ReplacePrompt
    } else if c == 'g' {
        EditorCommand::GotoLinePrompt
    } else if c == 'n' {
        EditorCommand::FindNext
    } else if c == 'm' {
        EditorCommand::ToggleMacro
    } else if c == 'p' {
        EditorCommand::PlayMacro
    } else {
        EditorCommand::Nothing
    }
}

/// The command of a key in the editor while no prompt is open.
pub open spec fn editor_binding(key: Key, mods: Mods) -> EditorCommand {
    match key {
        Key::Esc => EditorCommand::Close,
        Key::F(n) => if n == 10 {
            EditorCommand::Close
        } else if n == 2 {
            EditorCommand::Save
        } else if n == 7 {
            EditorCommand::SearchPrompt
        } else if n == 8 {
            EditorCommand::DeleteLine
        } else if n == 5 {
            EditorCommand::GotoLinePrompt
        } else {
            EditorCommand::Nothing
        },
        Key::Up => EditorCommand::CursorUp,
        Key::Down => EditorCommand::CursorDown,
        Key::Left => if mods.ctrl { EditorCommand::WordLeft } else { EditorCommand::CursorLeft },
        Key::Right => if mods.ctrl { EditorCommand::WordRight } else { EditorCommand::CursorRight },
        Key::Home => if mods.ctrl { EditorCommand::GotoTop } else { EditorCommand::CursorHome },
        Key::End => if mods.ctrl { EditorCommand::GotoBottom } else { EditorCommand::CursorEnd },
        Key::PageUp => EditorCommand::PageUp,
        Key::PageDown => EditorCommand::PageDown,
        Key::Enter => EditorCommand::Enter,
        Key::Backspace => EditorCommand::Backspace,
        Key::Delete => EditorCommand::DeleteChar,
        Key::Insert => EditorCommand::ToggleInsert,
        Key::Tab => EditorCommand::Type('\t'),
        Key::Char(c) => if mods.ctrl {
            editor_ctrl_binding(c)
        } else if mods.shift {
            EditorCommand::ShiftType(c)
        } else {
            EditorCommand::Type(c)
        },
        Key::Other => EditorCommand::Nothing,
    }
}

fn editor_ctrl_command(c: char) -> (r: EditorCommand)
    ensures
        r == editor_ctrl_binding(c),
{
    if c == 'c' {
        EditorCommand::Copy
    } else if c == 'x' {
        EditorCommand::Cut
    } else if c == 'v' {
        EditorCommand::Paste
    } else if c == 'z' {
        EditorCommand::Undo
    } else if c == 'y' {
        EditorCommand::Redo
    } else if c == 'a' {
        EditorCommand::SelectAll
    } else if c == 'k' {
        EditorCommand::DeleteLine
    } else if c == 'r' {
        EditorCommand::ReplacePrompt
    } else if c == 'g' {
        EditorCommand::GotoLinePrompt
    } else if c == 'n' {
        EditorCommand::FindNext
    } else if c == 'm' {
        EditorCommand::ToggleMacro
    } else if c == 'p' {
        EditorCommand::PlayMacro
    } else {
        EditorCommand::Nothing
    }
}

/// The command `key` with `mods` stands for in the editor while no prompt
/// is open.
pub fn editor_command(key: Key, mods: Mods) -> (c: EditorCommand)
    ensures
        c == editor_binding(key, mods),
{
    match key {
        Key::Esc => EditorCommand::Close,
        Key::F(n) => {
            if n == 10 {
                EditorCommand::Close
            } else if n == 2 {
                EditorCommand::Save
            } else if n == 7 {
                EditorCommand::SearchPrompt
            } else if n == 8 {
                EditorCommand::DeleteLine
            } else if n == 5 {
                EditorCommand::GotoLinePrompt
            } else {
                EditorCommand::Nothing
            }
        },
        Key::Up => EditorCommand::CursorUp,
        Key::Down => EditorCommand::CursorDown,
        Key::Left => if mods.ctrl { EditorCommand::WordLeft } else { EditorCommand::CursorLeft },
        Key::Right => if mods.ctrl { EditorCommand::WordRight } else { EditorCommand::CursorRight },
        Key::Home => if mods.ctrl { EditorCommand::GotoTop } else { EditorCommand::CursorHome },
        Key::End => if mods.ctrl { EditorCommand::GotoBottom } else { EditorCommand::CursorEnd },
        Key::PageUp => EditorCommand::PageUp,
        Key::PageDown => EditorCommand::PageDown,
        Key::Enter => EditorCommand::Enter,
        Key::Backspace => EditorCommand::Backspace,
        Key::Delete => EditorCommand::DeleteChar,
        Key::Insert => EditorCommand::ToggleInsert,
        Key::Tab => EditorCommand::Type('\t'),
        Key::Char(c) => {
            if mods.ctrl {
                let r = editor_ctrl_command(c);
                r
            } else if mods.shift {
                EditorCommand::ShiftType(c)
            } else {
                EditorCommand::Type(c)
            }
        },
        Key::Other => EditorCommand::Nothing,
    }
}

} // verus!
