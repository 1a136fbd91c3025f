use rdn::attributes::{permission_set, permissions_report, AttributesEdit};

#[test]
fn toggling_lines() {
    let mut a = AttributesEdit::new("/x/f".to_string(), 0o644, false);
    a.toggle();
    assert!(a.readonly);
    a.cursor_down();
    a.toggle();
    assert_eq!(a.mode, 0o244);
    a.cursor_down();
    a.cursor_down();
    a.toggle();
    assert_eq!(a.mode, 0o344);
    for _ in 0..20 {
        a.cursor_down();
    }
    assert_eq!(a.cursor, 9);
    a.toggle();
    assert_eq!(a.mode, 0o345);
    a.toggle();
    assert_eq!(a.mode, 0o344);
    for _ in 0..20 {
        a.cursor_up();
    }
    assert_eq!(a.cursor, 0);
}

#[test]
fn permission_bits_and_report() {
    assert!(permission_set(0o755, 8));
    assert!(!permission_set(0o755, 4));
    assert!(permission_set(0o755, 0));
    assert_eq!(permissions_report(0o755), "Permissions set: 755");
    assert_eq!(permissions_report(0), "Permissions set: 0");
    assert_eq!(permissions_report(0o4750), "Permissions set: 4750");
}
