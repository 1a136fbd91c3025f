use rdn::theme::{palette_name, slot_name, Theme};
use rdn::themeedit::ThemeEditor;

#[test]
fn editor_defaults_and_steps() {
    let mut e = ThemeEditor::new();
    assert_eq!((e.fg[3], e.bg[3]), (0, 3));
    e.cursor_up();
    assert_eq!(e.cursor, 0);
    e.fg_prev();
    assert_eq!(e.fg[0], 6);
    e.fg_next();
    assert_eq!(e.fg[0], 7);
    e.bg_next();
    assert_eq!(e.bg[0], 9);
    e.reset_slot();
    assert_eq!((e.fg[0], e.bg[0]), (7, 8));
    for _ in 0..20 {
        e.cursor_down();
    }
    assert_eq!(e.cursor, 12);
    e.fg_prev();
    assert_eq!(e.fg[12], 6);
    e.bg_prev();
    assert_eq!(e.bg[12], 15);
}

#[test]
fn applying_the_editor() {
    let mut theme = Theme::new();
    let mut e = ThemeEditor::from_theme(&theme);
    e.cursor_down();
    e.fg_next();
    e.apply(&mut theme);
    assert_eq!(theme.slot_indices(1), (8, 8));
    assert_eq!(theme.slot_indices(0), (7, 8));
    assert_eq!(theme.overrides, std::collections::HashMap::from([(1u8, (8u8, 8u8))]));
    let again = ThemeEditor::from_theme(&theme);
    assert_eq!(again.fg[1], 8);
}

#[test]
fn names() {
    assert_eq!(slot_name(0), "Panel background");
    assert_eq!(slot_name(12), "Command line");
    assert_eq!(palette_name(7), "Lt Gray");
    assert_eq!(palette_name(15), "White");
}
