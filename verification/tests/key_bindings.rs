use rdn::keys::{editor_command, panel_command, EditorCommand, Key, Mods, PanelCommand};

const NONE: Mods = Mods { ctrl: false, alt: false, shift: false };
const CTRL: Mods = Mods { ctrl: true, alt: false, shift: false };
const ALT: Mods = Mods { ctrl: false, alt: true, shift: false };
const SHIFT: Mods = Mods { ctrl: false, alt: false, shift: true };

#[test]
fn function_keys() {
    assert_eq!(panel_command(Key::F(1), NONE), PanelCommand::Help);
    assert_eq!(panel_command(Key::F(1), ALT), PanelCommand::DriveSelect);
    assert_eq!(panel_command(Key::F(3), CTRL), PanelCommand::SplitFile);
    assert_eq!(panel_command(Key::F(4), SHIFT), PanelCommand::EditNew);
    assert_eq!(panel_command(Key::F(4), CTRL), PanelCommand::CombineFiles);
    assert_eq!(panel_command(Key::F(5), NONE), PanelCommand::Copy);
    assert_eq!(panel_command(Key::F(6), SHIFT), PanelCommand::QuickRename);
    assert_eq!(panel_command(Key::F(7), ALT), PanelCommand::FindFile);
    assert_eq!(panel_command(Key::F(9), NONE), PanelCommand::Menu);
    assert_eq!(panel_command(Key::F(9), ALT), PanelCommand::AsciiTable);
    assert_eq!(panel_command(Key::F(10), ALT), PanelCommand::DirTree);
    assert_eq!(panel_command(Key::F(12), ALT), PanelCommand::DirHistory);
    assert_eq!(panel_command(Key::F(12), NONE), PanelCommand::PanelFilter);
    assert_eq!(panel_command(Key::F(13), NONE), PanelCommand::Nothing);
}

#[test]
fn character_keys() {
    assert_eq!(panel_command(Key::Char('x'), ALT), PanelCommand::Quit);
    assert_eq!(panel_command(Key::Char('3'), ALT), PanelCommand::GotoBookmark(2));
    assert_eq!(panel_command(Key::Char('9'), CTRL), PanelCommand::SetBookmark(8));
    assert_eq!(panel_command(Key::Char('k'), ALT), PanelCommand::QuickSearch('k'));
    assert_eq!(panel_command(Key::Char('é'), ALT), PanelCommand::QuickSearch('é'));
    assert_eq!(panel_command(Key::Char('!'), ALT), PanelCommand::Nothing);
    assert_eq!(panel_command(Key::Char('u'), CTRL), PanelCommand::SwapPanels);
    assert_eq!(panel_command(Key::Char('l'), CTRL), PanelCommand::Refresh);
    assert_eq!(panel_command(Key::Char('+'), NONE), PanelCommand::SelectGroup);
    assert_eq!(panel_command(Key::Char('a'), NONE), PanelCommand::QuickSearch('a'));
    assert_eq!(panel_command(Key::Char('_'), NONE), PanelCommand::QuickSearch('_'));
    assert_eq!(panel_command(Key::Char('/'), NONE), PanelCommand::Nothing);
    assert_eq!(panel_command(Key::Insert, NONE), PanelCommand::ToggleSelect);
    assert_eq!(panel_command(Key::Esc, NONE), PanelCommand::Nothing);
}

#[test]
fn editor_function_and_movement_keys() {
    assert_eq!(editor_command(Key::Esc, NONE), EditorCommand::Close);
    assert_eq!(editor_command(Key::F(10), NONE), EditorCommand::Close);
    assert_eq!(editor_command(Key::F(2), NONE), EditorCommand::Save);
    assert_eq!(editor_command(Key::F(7), NONE), EditorCommand::SearchPrompt);
    assert_eq!(editor_command(Key::F(8), NONE), EditorCommand::DeleteLine);
    assert_eq!(editor_command(Key::F(5), NONE), EditorCommand::GotoLinePrompt);
    assert_eq!(editor_command(Key::F(3), NONE), EditorCommand::Nothing);
    assert_eq!(editor_command(Key::Left, CTRL), EditorCommand::WordLeft);
    assert_eq!(editor_command(Key::Left, NONE), EditorCommand::CursorLeft);
    assert_eq!(editor_command(Key::Right, CTRL), EditorCommand::WordRight);
    assert_eq!(editor_command(Key::Home, CTRL), EditorCommand::GotoTop);
    assert_eq!(editor_command(Key::End, CTRL), EditorCommand::GotoBottom);
    assert_eq!(editor_command(Key::End, NONE), EditorCommand::CursorEnd);
    assert_eq!(editor_command(Key::Insert, NONE), EditorCommand::ToggleInsert);
    assert_eq!(editor_command(Key::Tab, NONE), EditorCommand::Type('\t'));
    assert_eq!(editor_command(Key::Delete, NONE), EditorCommand::DeleteChar);
}

#[test]
fn editor_control_and_typing_keys() {
    assert_eq!(editor_command(Key::Char('z'), CTRL), EditorCommand::Undo);
    assert_eq!(editor_command(Key::Char('y'), CTRL), EditorCommand::Redo);
    assert_eq!(editor_command(Key::Char('k'), CTRL), EditorCommand::DeleteLine);
    assert_eq!(editor_command(Key::Char('r'), CTRL), EditorCommand::ReplacePrompt);
    assert_eq!(editor_command(Key::Char('g'), CTRL), EditorCommand::GotoLinePrompt);
    assert_eq!(editor_command(Key::Char('n'), CTRL), EditorCommand::FindNext);
    assert_eq!(editor_command(Key::Char('m'), CTRL), EditorCommand::ToggleMacro);
    assert_eq!(editor_command(Key::Char('p'), CTRL), EditorCommand::PlayMacro);
    assert_eq!(editor_command(Key::Char('s'), CTRL), EditorCommand::Nothing);
    assert_eq!(editor_command(Key::Char('A'), SHIFT), EditorCommand::ShiftType('A'));
    assert_eq!(editor_command(Key::Char('é'), NONE), EditorCommand::Type('é'));
}
