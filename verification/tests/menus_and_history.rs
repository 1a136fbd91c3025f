use rdn::history::{add_to_file_history, push_dir_history};
use rdn::menu::{menu_cursor_to_index, menu_items, menu_labels, menu_selectable_count, MenuAction, MenuBar, MenuItem};

fn strings(v: &[&str]) -> Vec<String> {
    v.iter().map(|s| s.to_string()).collect()
}

#[test]
fn menu_bar_titles() {
    assert_eq!(menu_labels(), vec![" Left ", " Files ", " Commands ", " Options ", " Right "]);
}

#[test]
fn left_menu_entries() {
    let items = menu_items(0);
    assert_eq!(items.len(), 12);
    assert_eq!(items[0].label, "Brief mode");
    assert!(items[2].is_separator());
    assert_eq!(items[9].label, "Filter...");
    assert_eq!(items[9].shortcut, "F11");
    assert_eq!(items[11].action, MenuAction::ChangeDriveLeft);
    assert_eq!(items[11].shortcut, "Alt+F1");
}

#[test]
fn right_menu_has_its_own_keys() {
    let items = menu_items(4);
    assert_eq!(items[9].shortcut, "F12");
    assert_eq!(items[11].action, MenuAction::ChangeDriveRight);
    assert_eq!(items[11].shortcut, "Alt+F2");
    assert!(menu_items(5).is_empty());
}

#[test]
fn files_menu_entries() {
    let items = menu_items(1);
    assert_eq!(items.len(), 24);
    assert_eq!(items[5].label, "Rename/Move");
    assert_eq!(items[23].action, MenuAction::Quit);
    assert_eq!(items[23].shortcut, "Alt+X");
    assert_eq!(menu_selectable_count(1), 19);
}

#[test]
fn selectable_counts_and_positions() {
    assert_eq!(menu_selectable_count(0), 10);
    assert_eq!(menu_selectable_count(2), 12);
    assert_eq!(menu_selectable_count(3), 17);
    assert_eq!(menu_cursor_to_index(0, 0), 0);
    assert_eq!(menu_cursor_to_index(0, 2), 3);
    assert_eq!(menu_cursor_to_index(0, 7), 9);
    assert_eq!(menu_cursor_to_index(0, 10), 0);
    assert_eq!(menu_cursor_to_index(7, 0), 0);
}

#[test]
fn separator_and_item() {
    let s = MenuItem::separator();
    assert!(s.is_separator());
    let i = MenuItem::item("View", "F3", MenuAction::ViewFile);
    assert!(!i.is_separator());
    assert_eq!(i.label, "View");
}

#[test]
fn menu_navigation_wraps() {
    let mut m = MenuBar::new();
    m.open_menu();
    assert!(m.open);
    m.menu_left();
    assert_eq!(m.menu_index, 4);
    m.menu_right();
    assert_eq!(m.menu_index, 0);
    m.item_up();
    assert_eq!(m.item_cursor, 9);
    m.item_down();
    assert_eq!(m.item_cursor, 0);
    m.item_end();
    assert_eq!(m.item_cursor, 9);
    assert_eq!(m.selected_action(), Some(MenuAction::ChangeDriveLeft));
    m.item_home();
    assert_eq!(m.selected_action(), Some(MenuAction::PanelBrief));
    m.close();
    assert!(!m.open);
}

#[test]
fn menu_hotkeys() {
    let mut m = MenuBar::new();
    m.menu_right();
    assert_eq!(m.hotkey('c'), Some(MenuAction::Copy));
    assert_eq!(m.item_cursor, 3);
    assert_eq!(m.hotkey('Q'), Some(MenuAction::QuickRename));
    assert_eq!(m.item_cursor, 9);
    assert_eq!(m.hotkey('z'), None);
    assert_eq!(m.item_cursor, 9);
}

#[test]
fn dir_history_skips_repeats_and_caps() {
    let mut h: Vec<String> = Vec::new();
    push_dir_history(&mut h, "/a".to_string());
    push_dir_history(&mut h, "/a".to_string());
    push_dir_history(&mut h, "/b".to_string());
    push_dir_history(&mut h, "/a".to_string());
    assert_eq!(h, strings(&["/a", "/b", "/a"]));
    let mut long: Vec<String> = (0..50).map(|i| format!("/d{}", i)).collect();
    push_dir_history(&mut long, "/new".to_string());
    assert_eq!(long.len(), 50);
    assert_eq!(long[0], "/d1");
    assert_eq!(long[49], "/new");
}

#[test]
fn file_history_moves_to_end_and_caps() {
    let mut h = strings(&["/x", "/y", "/x", "/z"]);
    add_to_file_history(&mut h, "/x".to_string());
    assert_eq!(h, strings(&["/y", "/z", "/x"]));
    let mut long: Vec<String> = (0..100).map(|i| format!("/f{}", i)).collect();
    add_to_file_history(&mut long, "/g".to_string());
    assert_eq!(long.len(), 100);
    assert_eq!(long[0], "/f1");
    assert_eq!(long[99], "/g");
    add_to_file_history(&mut long, "/f50".to_string());
    assert_eq!(long.len(), 100);
    assert_eq!(long[99], "/f50");
    assert_eq!(long[48], "/f49");
    assert_eq!(long[49], "/f51");
}
