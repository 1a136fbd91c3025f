use rdn::editor::{Editor, EditorInputMode, PromptAction, Selection, UndoAction};
use rdn::keys::{Key, Mods};

const NONE: Mods = Mods { ctrl: false, alt: false, shift: false };
const CTRL: Mods = Mods { ctrl: true, alt: false, shift: false };

fn ed(text: &str) -> Editor {
    Editor::from_content("/tmp/notes.txt".to_string(), text)
}

fn lines(e: &Editor) -> Vec<String> {
    e.lines.clone()
}

#[test]
fn opening_and_title() {
    let e = Editor::new();
    assert_eq!(e.lines, vec![""]);
    assert_eq!(e.title(), "Untitled");
    assert_eq!(e.input_mode, EditorInputMode::Normal);
    let mut e = ed("one\r\ntwo\n");
    assert_eq!(e.lines, vec!["one", "two"]);
    assert_eq!(e.line_count(), 2);
    assert_eq!(e.text(), "one\ntwo");
    assert_eq!(e.title(), "notes.txt");
    e.modified = true;
    assert_eq!(e.title(), "notes.txt*");
    assert_eq!(ed("").lines, vec![""]);
}

#[test]
fn typing_and_undo() {
    let mut e = ed("ab");
    e.cursor_x = 1;
    e.insert_char('X');
    assert_eq!(lines(&e), vec!["aXb"]);
    assert_eq!(e.cursor_x, 2);
    assert!(e.modified);
    e.insert_char('\t');
    assert_eq!(lines(&e), vec!["aX  b"]);
    assert_eq!(e.cursor_x, 4);
    assert!(e.undo_possible());
    e.undo();
    assert_eq!(lines(&e), vec!["aXb"]);
    e.undo();
    assert_eq!(lines(&e), vec!["ab"]);
    assert_eq!(e.cursor_x, 1);
    assert!(e.redo_possible());
    e.redo();
    assert_eq!(lines(&e), vec!["aXb"]);
    assert_eq!(e.cursor_x, 2);
    e.insert_mode = false;
    e.cursor_x = 0;
    e.insert_char('Z');
    assert_eq!(lines(&e), vec!["ZXb"]);
    assert!(e.redo_stack.is_empty());
}

#[test]
fn backspace_delete_enter() {
    let mut e = ed("  abc\ndef");
    e.cursor_x = 4;
    e.backspace();
    assert_eq!(lines(&e), vec!["  ac", "def"]);
    e.enter_key();
    assert_eq!(lines(&e), vec!["  a", "  c", "def"]);
    assert_eq!((e.cursor_x, e.cursor_y), (2, 1));
    e.undo();
    assert_eq!(lines(&e), vec!["  ac", "def"]);
    e.cursor_y = 1;
    e.cursor_x = 0;
    e.backspace();
    assert_eq!(lines(&e), vec!["  acdef"]);
    assert_eq!((e.cursor_x, e.cursor_y), (4, 0));
    e.undo();
    assert_eq!(lines(&e), vec!["  ac", "def"]);
    e.cursor_y = 0;
    e.cursor_x = 4;
    e.delete_char();
    assert_eq!(lines(&e), vec!["  acdef"]);
    e.cursor_x = 0;
    e.delete_char();
    assert_eq!(lines(&e), vec![" acdef"]);
    match e.undo_stack.last() {
        Some(UndoAction::Delete { x, y, text }) => assert_eq!((*x, *y, text.as_str()), (0, 0, " ")),
        _ => panic!("expected a delete"),
    }
}

#[test]
fn deleting_lines() {
    let mut e = ed("a\nb\nc");
    e.cursor_y = 2;
    e.cursor_x = 1;
    e.delete_line();
    assert_eq!(lines(&e), vec!["a", "b"]);
    assert_eq!(e.cursor_y, 1);
    e.delete_line();
    e.delete_line();
    assert_eq!(lines(&e), vec!["a"]);
}

#[test]
fn cursor_and_words() {
    let mut e = ed("hello, world\nx");
    e.cursor_end();
    assert_eq!(e.cursor_x, 12);
    e.word_left();
    assert_eq!(e.cursor_x, 7);
    e.word_left();
    assert_eq!(e.cursor_x, 0);
    e.word_right();
    assert_eq!(e.cursor_x, 7);
    e.cursor_right();
    e.cursor_end();
    e.cursor_right();
    assert_eq!((e.cursor_x, e.cursor_y), (0, 1));
    e.cursor_left();
    assert_eq!((e.cursor_x, e.cursor_y), (12, 0));
    e.cursor_down();
    assert_eq!((e.cursor_x, e.cursor_y), (1, 1));
    e.goto_top();
    assert_eq!((e.cursor_x, e.cursor_y), (0, 0));
    e.goto_bottom();
    assert_eq!((e.cursor_x, e.cursor_y), (1, 1));
    e.goto_line(1);
    assert_eq!(e.cursor_y, 0);
    e.goto_line(99);
    assert_eq!(e.cursor_y, 1);
}

#[test]
fn scrolling_window() {
    let text: String = (0..100).map(|i| format!("line {}\n", i)).collect();
    let mut e = ed(&text);
    e.visible_height = 10;
    e.page_down();
    assert_eq!(e.cursor_y, 9);
    e.page_down();
    assert_eq!((e.cursor_y, e.scroll_y), (18, 9));
    e.page_up();
    assert_eq!(e.cursor_y, 9);
    e.goto_line(100);
    assert_eq!((e.cursor_y, e.scroll_y), (99, 90));
}

#[test]
fn blocks_and_clipboard() {
    let mut e = ed("abcdef\nghijkl\nmnop");
    e.cursor_x = 2;
    e.start_selection();
    e.cursor_y = 1;
    e.cursor_x = 3;
    e.update_selection();
    assert_eq!(e.get_selected_text(), "cdef\nghi");
    assert!(e.is_in_selection(5, 0));
    assert!(!e.is_in_selection(1, 0));
    assert!(e.is_in_selection(2, 1));
    assert!(!e.is_in_selection(3, 1));
    let copied = e.copy_selection();
    assert_eq!(copied, "cdef\nghi");
    assert_eq!(e.clipboard, vec!["cdef", "ghi"]);
    assert_eq!(e.status_msg, Some("Block copied".to_string()));
    assert!(e.selection_deletable());
    e.delete_selected();
    assert_eq!(lines(&e), vec!["abjkl", "mnop"]);
    assert_eq!((e.cursor_x, e.cursor_y), (2, 0));
    assert!(e.paste_allowed());
    e.paste();
    assert_eq!(lines(&e), vec!["abcdef", "ghijkl", "mnop"]);
    assert_eq!((e.cursor_x, e.cursor_y), (3, 1));
    e.undo();
    assert_eq!(lines(&e), vec!["abjkl", "mnop"]);
    e.set_clipboard_text("XY");
    e.cursor_x = 1;
    e.paste();
    assert_eq!(lines(&e), vec!["aXYbjkl", "mnop"]);
    assert_eq!(e.cursor_x, 3);
    e.select_all();
    assert_eq!(e.selection, Some(Selection { start_x: 0, start_y: 0, end_x: 4, end_y: 1 }));
    let cut = e.cut_selection();
    assert_eq!(cut, "aXYbjkl\nmnop");
    assert_eq!(lines(&e), vec![""]);
}

#[test]
fn search_and_replace() {
    let mut e = ed("Foo bar\nbar FOO\nfoo");
    e.search_query = "foo".to_string();
    assert!(e.find_next());
    assert_eq!((e.cursor_x, e.cursor_y), (4, 1));
    assert_eq!(e.selection, Some(Selection { start_x: 4, start_y: 1, end_x: 7, end_y: 1 }));
    e.cursor_x = 0;
    assert!(e.find_next());
    assert_eq!((e.cursor_x, e.cursor_y), (4, 1));
    assert!(e.find_prev());
    assert_eq!((e.cursor_x, e.cursor_y), (0, 0));
    e.search_query = "zzz".to_string();
    assert!(!e.find_next());
    assert_eq!(e.status_msg, Some("Not found".to_string()));
    e.search_query = "bar".to_string();
    e.replace_query = "baz".to_string();
    assert!(e.replace_count_fits());
    assert_eq!(e.replace_all(), 2);
    assert_eq!(lines(&e), vec!["Foo baz", "baz FOO", "foo"]);
    assert_eq!(e.status_msg, Some("Replaced 2 occurrences".to_string()));
    e.undo();
    assert_eq!(lines(&e), vec!["Foo bar", "bar FOO", "foo"]);
    e.selection = Some(Selection { start_x: 4, start_y: 0, end_x: 7, end_y: 0 });
    e.replace_query = "qux!".to_string();
    e.replace_current();
    assert_eq!(lines(&e)[0], "Foo qux!");
    assert_eq!(e.cursor_x, 8);
    assert_eq!(e.selection, None);
}

#[test]
fn macro_toggle() {
    let mut e = Editor::new();
    e.toggle_macro_recording();
    assert!(e.macro_recording);
    assert_eq!(e.status_msg, Some("Recording macro...".to_string()));
    e.record_key(Key::Char('a'), NONE);
    e.record_key(Key::Char('m'), CTRL);
    e.record_key(Key::Tab, NONE);
    e.toggle_macro_recording();
    assert!(!e.macro_recording);
    assert_eq!(e.status_msg, Some("Macro recorded (2 keys)".to_string()));
    assert_eq!(e.macro_saved, vec![(Key::Char('a'), NONE), (Key::Tab, NONE)]);
    assert!(e.macro_buffer.is_empty());
    e.record_key(Key::Char('b'), NONE);
    assert!(e.macro_buffer.is_empty());
}

#[test]
fn macro_playback_replays_typing_moves_and_tab() {
    let mut e = ed("xy");
    assert!(e.play_macro());
    assert_eq!(e.status_msg, Some("No macro recorded".to_string()));
    e.toggle_macro_recording();
    for (k, m) in [(Key::Char('a'), NONE), (Key::Tab, NONE), (Key::Char('b'), NONE), (Key::Enter, NONE), (Key::Char('z'), CTRL)] {
        e.record_key(k, m);
    }
    e.toggle_macro_recording();
    e.cursor_x = 0;
    assert!(e.play_macro());
    assert_eq!(e.status_msg, Some("Macro played".to_string()));
    assert_eq!(lines(&e), vec!["a   b", "xy"]);
    assert_eq!((e.cursor_x, e.cursor_y), (0, 1));
}

#[test]
fn search_replace_and_goto_prompts() {
    let mut e = ed("one two x\ntwo three\nfour");
    e.open_prompt(EditorInputMode::Search);
    for c in "two".chars() {
        assert_eq!(e.prompt_step(Key::Char(c)), PromptAction::Done);
    }
    assert_eq!(e.input_buffer, "two");
    assert_eq!(e.prompt_step(Key::Enter), PromptAction::Done);
    assert_eq!(e.input_mode, EditorInputMode::Normal);
    assert_eq!(e.search_query, "two");
    assert_eq!((e.cursor_x, e.cursor_y), (4, 0));
    e.open_prompt(EditorInputMode::Replace);
    for c in "2".chars() {
        e.prompt_step(Key::Char(c));
    }
    e.prompt_step(Key::Enter);
    assert_eq!(e.input_mode, EditorInputMode::ReplaceConfirm);
    assert_eq!(e.replace_query, "2");
    assert_eq!(e.prompt_step(Key::Char('y')), PromptAction::Done);
    assert_eq!(lines(&e)[0], "one 2 x");
    assert_eq!((e.cursor_x, e.cursor_y), (0, 1));
    assert_eq!(e.prompt_step(Key::Char('a')), PromptAction::Done);
    assert_eq!(lines(&e), vec!["one 2 x", "2 three", "four"]);
    assert_eq!(e.status_msg, Some("Replaced 1 occurrences".to_string()));
    assert_eq!(e.input_mode, EditorInputMode::Normal);
    e.open_prompt(EditorInputMode::GotoLine);
    e.prompt_step(Key::Char('3'));
    e.prompt_step(Key::Char('x'));
    assert_eq!(e.input_buffer, "3");
    e.prompt_step(Key::Enter);
    assert_eq!((e.cursor_x, e.cursor_y), (0, 2));
    e.open_prompt(EditorInputMode::SaveAs);
    for c in "/tmp/o.txt".chars() {
        e.prompt_step(Key::Char(c));
    }
    assert_eq!(e.prompt_step(Key::Enter), PromptAction::Save);
    assert_eq!(e.path, Some("/tmp/o.txt".to_string()));
}

#[test]
fn search_refused_at_end_of_line() {
    let mut e = ed("abc\nabc");
    e.cursor_x = 3;
    e.open_prompt(EditorInputMode::Search);
    e.prompt_step(Key::Char('b'));
    assert_eq!(e.prompt_step(Key::Enter), PromptAction::Refused);
    assert_eq!(e.search_query, "b");
    assert_eq!((e.cursor_x, e.cursor_y), (3, 0));
    e.open_prompt(EditorInputMode::Search);
    assert_eq!(e.input_buffer, "b");
    assert_eq!(e.prompt_step(Key::Esc), PromptAction::Done);
    assert_eq!(e.input_mode, EditorInputMode::Normal);
}

#[test]
fn editing_non_ascii_text() {
    let mut e = Editor::from_content("/t/u.txt".to_string(), "grüße\nwelt");
    assert_eq!(e.lines, vec!["grüße", "welt"]);
    e.cursor_end();
    e.insert_char('ñ');
    assert_eq!(e.lines[0], "grüßeñ");
    assert_eq!(e.cursor_x, 6);
    e.cursor_home();
    e.word_right();
    assert_eq!(e.cursor_x, 6);
    e.backspace();
    assert_eq!(e.text(), "grüße\nwelt");
}

#[test]
fn macro_keys_are_handed_out() {
    let mut e = Editor::new();
    e.toggle_macro_recording();
    e.record_key(Key::Down, NONE);
    e.toggle_macro_recording();
    assert_eq!(e.get_macro_keys(), vec![(Key::Down, NONE)]);
}
