use rdn::attributes::AttributesEdit;
use rdn::dialog::{attributes_key, confirm_key, dialog_step, input_key, message_key, number_key, sort_menu_key, ConfirmSettings, DialogAnswer};
use rdn::keys::Key;
use rdn::types::{DialogKind, FileOp, SortMode};

#[test]
fn input_box_edits_and_answers() {
    let mut v = String::from("ab");
    assert_eq!(input_key(&mut v, Key::Char('é')), DialogAnswer::Stay);
    assert_eq!(v, "abé");
    assert_eq!(input_key(&mut v, Key::Backspace), DialogAnswer::Stay);
    assert_eq!(v, "ab");
    assert_eq!(input_key(&mut v, Key::Left), DialogAnswer::Stay);
    assert_eq!(v, "ab");
    assert_eq!(input_key(&mut v, Key::Enter), DialogAnswer::Accept);
    assert_eq!(input_key(&mut v, Key::Esc), DialogAnswer::Cancel);
    assert_eq!(v, "ab");
    let mut empty = String::new();
    assert_eq!(input_key(&mut empty, Key::Backspace), DialogAnswer::Stay);
    assert_eq!(empty, "");
}

#[test]
fn yes_no_and_message_boxes() {
    assert_eq!(confirm_key(Key::Char('y')), DialogAnswer::Accept);
    assert_eq!(confirm_key(Key::Char('Y')), DialogAnswer::Accept);
    assert_eq!(confirm_key(Key::Enter), DialogAnswer::Accept);
    assert_eq!(confirm_key(Key::Char('N')), DialogAnswer::Cancel);
    assert_eq!(confirm_key(Key::Esc), DialogAnswer::Cancel);
    assert_eq!(confirm_key(Key::Char('q')), DialogAnswer::Stay);
    assert_eq!(message_key(Key::Enter), DialogAnswer::Cancel);
    assert_eq!(message_key(Key::Esc), DialogAnswer::Cancel);
    assert_eq!(message_key(Key::Char(' ')), DialogAnswer::Stay);
}

#[test]
fn attributes_box_keys() {
    let mut a = AttributesEdit::new(String::from("f"), 0o644, false);
    assert_eq!(attributes_key(&mut a, Key::Char(' ')), DialogAnswer::Stay);
    assert!(a.readonly);
    assert_eq!(attributes_key(&mut a, Key::Down), DialogAnswer::Stay);
    assert_eq!(a.cursor, 1);
    attributes_key(&mut a, Key::Char(' '));
    assert_eq!(a.mode, 0o244);
    attributes_key(&mut a, Key::Up);
    attributes_key(&mut a, Key::Up);
    assert_eq!(a.cursor, 0);
    assert_eq!(attributes_key(&mut a, Key::Enter), DialogAnswer::Accept);
    assert_eq!(attributes_key(&mut a, Key::Esc), DialogAnswer::Cancel);
}

#[test]
fn dialog_step_over_each_kind() {
    let d = DialogKind::Input {
        title: String::from("Copy"),
        prompt: String::from("To:"),
        value: String::from("/tm"),
        op: FileOp::Copy,
    };
    let (d, a) = dialog_step(d, Key::Char('p'));
    assert_eq!(a, DialogAnswer::Stay);
    assert_eq!(
        d,
        DialogKind::Input {
            title: String::from("Copy"),
            prompt: String::from("To:"),
            value: String::from("/tmp"),
            op: FileOp::Copy,
        }
    );
    let (_, a) = dialog_step(d, Key::Enter);
    assert_eq!(a, DialogAnswer::Accept);
    let c = DialogKind::Confirm { title: String::from("Delete"), message: String::from("Sure?"), op: FileOp::Delete };
    let (c2, a) = dialog_step(c.clone(), Key::Char('x'));
    assert_eq!(a, DialogAnswer::Stay);
    assert_eq!(c2, c);
    let (_, a) = dialog_step(DialogKind::Error(String::from("oops")), Key::Esc);
    assert_eq!(a, DialogAnswer::Cancel);
    let (_, a) = dialog_step(DialogKind::FileInfo, Key::Up);
    assert_eq!(a, DialogAnswer::Stay);
}

#[test]
fn line_number_prompt_takes_digits_only() {
    let mut v = String::from("1");
    assert_eq!(number_key(&mut v, Key::Char('2')), DialogAnswer::Stay);
    assert_eq!(number_key(&mut v, Key::Char('x')), DialogAnswer::Stay);
    assert_eq!(v, "12");
    assert_eq!(number_key(&mut v, Key::Backspace), DialogAnswer::Stay);
    assert_eq!(v, "1");
    assert_eq!(number_key(&mut v, Key::Enter), DialogAnswer::Accept);
    assert_eq!(number_key(&mut v, Key::Esc), DialogAnswer::Cancel);
}

#[test]
fn sort_menu_letters() {
    assert_eq!(sort_menu_key(Key::Char('e')), (DialogAnswer::Accept, Some(SortMode::Extension)));
    assert_eq!(sort_menu_key(Key::Char('D')), (DialogAnswer::Accept, Some(SortMode::Date)));
    assert_eq!(sort_menu_key(Key::Char('x')), (DialogAnswer::Stay, None));
    assert_eq!(sort_menu_key(Key::Esc), (DialogAnswer::Cancel, None));
}

#[test]
fn confirmation_settings_box() {
    let mut c = ConfirmSettings { cursor: 0, delete: true, overwrite: true, exit: false };
    assert_eq!(c.key(Key::Char(' ')), DialogAnswer::Stay);
    assert!(!c.delete);
    c.key(Key::Down);
    c.key(Key::Down);
    c.key(Key::Down);
    assert_eq!(c.cursor, 2);
    c.key(Key::Enter);
    assert!(c.exit);
    assert!(c.overwrite);
    c.key(Key::Up);
    assert_eq!(c.cursor, 1);
    assert_eq!(c.key(Key::F(10)), DialogAnswer::Cancel);
    assert_eq!(c.key(Key::Esc), DialogAnswer::Cancel);
}

#[test]
fn flipping_a_confirmation_twice_restores_it() {
    let start = ConfirmSettings { cursor: 1, delete: false, overwrite: true, exit: false };
    let mut c = start;
    c.key(Key::Char(' '));
    assert!(!c.overwrite);
    c.key(Key::Char(' '));
    assert_eq!(c, start);
}
