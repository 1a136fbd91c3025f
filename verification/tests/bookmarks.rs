use rdn::bookmarks::{jump_outcome, BookmarkJump, Bookmarks};

#[test]
fn set_and_save_bookmarks() {
    let mut b = Bookmarks::new();
    assert_eq!(b.slots.len(), 9);
    b.set_bookmark(0, "/home/u");
    b.set_bookmark(4, "/tmp");
    b.set_bookmark(9, "/nowhere");
    let list = b.to_list();
    assert_eq!(list, vec!["/home/u", "", "", "", "/tmp", "", "", "", ""]);
    let mut c = Bookmarks::new();
    c.restore(&list);
    assert_eq!(c.slots, b.slots);
}

#[test]
fn restore_keeps_slots_without_paths() {
    let mut b = Bookmarks::new();
    b.set_bookmark(1, "/old");
    b.set_bookmark(2, "/kept");
    b.restore(&vec!["/a".to_string(), "/b".to_string(), String::new()]);
    assert_eq!(b.slots[0], Some("/a".to_string()));
    assert_eq!(b.slots[1], Some("/b".to_string()));
    assert_eq!(b.slots[2], Some("/kept".to_string()));
    let long: Vec<String> = (0..12).map(|i| format!("/d{}", i)).collect();
    b.restore(&long);
    assert_eq!(b.slots[8], Some("/d8".to_string()));
    assert_eq!(b.slots.len(), 9);
}

#[test]
fn jump_outcomes() {
    assert_eq!(
        jump_outcome(2, &Some("/srv".to_string()), true),
        BookmarkJump::Go("/srv".to_string(), "Bookmark 3: /srv".to_string())
    );
    assert_eq!(
        jump_outcome(2, &Some("/srv".to_string()), false),
        BookmarkJump::Stay("Bookmark 3 path doesn't exist".to_string())
    );
    assert_eq!(jump_outcome(0, &None, true), BookmarkJump::Stay("Bookmark 1 not set".to_string()));
}

#[test]
fn visiting_bookmarks() {
    let mut b = Bookmarks::new();
    assert_eq!(b.goto_bookmark(9), BookmarkJump::Ignore);
    assert_eq!(b.goto_bookmark(3), BookmarkJump::Stay("Bookmark 4 not set".to_string()));
    b.set_bookmark(3, "/");
    assert_eq!(b.goto_bookmark(3), BookmarkJump::Go("/".to_string(), "Bookmark 4: /".to_string()));
    b.set_bookmark(5, "/surely/not/here/at/all");
    assert_eq!(b.goto_bookmark(5), BookmarkJump::Stay("Bookmark 6 path doesn't exist".to_string()));
}
