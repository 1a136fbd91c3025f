use rdn::panel::{sort_by_mode, Panel};
use rdn::types::{FileEntry, SortMode};

fn file(dir: &str, name: &str, size: u64, is_dir: bool, modified: Option<u64>) -> FileEntry {
    FileEntry {
        name: name.to_string(),
        path: format!("{}/{}", dir, name),
        is_dir,
        is_symlink: false,
        size,
        modified,
        is_readonly: false,
        is_hidden: false,
        is_executable: false,
        selected: false,
    }
}

fn listing() -> Vec<FileEntry> {
    vec![
        file("/home/u", "zeta.txt", 300, false, Some(3)),
        file("/home/u", "Alpha.rs", 100, false, Some(5)),
        file("/home/u", "docs", 0, true, None),
        file("/home/u", ".hidden", 7, false, None),
        file("/home/u", "beta.md", 200, false, Some(1)),
        file("/home/u", "Bin", 0, true, None),
    ]
}

fn names(p: &Panel) -> Vec<String> {
    p.entries.iter().map(|e| e.name.clone()).collect()
}

#[test]
fn new_panel_sorts_and_hides() {
    let p = Panel::new("/home/u".to_string(), listing());
    assert_eq!(names(&p), vec!["..", "Bin", "docs", "Alpha.rs", "beta.md", "zeta.txt"]);
    assert_eq!(p.entries[0].path, "/home");
    assert_eq!(p.cursor, 0);
    let root = Panel::new("/".to_string(), vec![file("", "etc", 0, true, None)]);
    assert_eq!(names(&root), vec!["etc"]);
}

#[test]
fn sorting_modes() {
    let es = vec![
        file("/d", "b.zip", 5, false, Some(2)),
        file("/d", "a.txt", 9, false, Some(1)),
        file("/d", "c.txt", 1, false, None),
        file("/d", "sub", 0, true, None),
    ];
    let n = |v: Vec<FileEntry>| v.into_iter().map(|e| e.name).collect::<Vec<_>>();
    assert_eq!(n(sort_by_mode(es.iter().map(|e| e.duplicate()).collect(), SortMode::Extension)), vec!["sub", "a.txt", "c.txt", "b.zip"]);
    assert_eq!(n(sort_by_mode(es.iter().map(|e| e.duplicate()).collect(), SortMode::Size)), vec!["sub", "c.txt", "b.zip", "a.txt"]);
    assert_eq!(n(sort_by_mode(es.iter().map(|e| e.duplicate()).collect(), SortMode::Date)), vec!["sub", "c.txt", "a.txt", "b.zip"]);
    assert_eq!(n(sort_by_mode(es.iter().map(|e| e.duplicate()).collect(), SortMode::Unsorted)), vec!["sub", "b.zip", "a.txt", "c.txt"]);
}

#[test]
fn cursor_movement() {
    let mut p = Panel::new("/home/u".to_string(), listing());
    p.visible_height = 2;
    p.cursor_down();
    p.cursor_down();
    assert_eq!(p.cursor, 2);
    assert_eq!(p.scroll_offset, 1);
    p.cursor_end();
    assert_eq!(p.cursor, 5);
    p.cursor_down();
    assert_eq!(p.cursor, 5);
    p.cursor_home();
    assert_eq!(p.cursor, 0);
    assert_eq!(p.scroll_offset, 0);
    p.cursor_up();
    assert_eq!(p.cursor, 0);
    p.page_down();
    assert_eq!(p.cursor, 1);
}

#[test]
fn selection_operations() {
    let mut p = Panel::new("/home/u".to_string(), listing());
    p.toggle_select();
    assert!(!p.entries[0].selected);
    p.select_by_pattern("*.RS");
    let sel: Vec<String> = p.get_selected_or_current().iter().map(|e| e.name.clone()).collect();
    assert_eq!(sel, vec!["Alpha.rs"]);
    p.invert_selection();
    assert!(!p.entries[0].selected);
    assert!(p.entries[1].selected);
    assert!(!p.entries[3].selected);
    p.deselect_by_pattern("*");
    assert!(p.entries.iter().all(|e| !e.selected));
    p.cursor = 4;
    p.toggle_select();
    assert_eq!(p.get_info(), (3, 600, 1, 200));
    p.clear_selection();
    let cur: Vec<String> = p.get_selected_or_current().iter().map(|e| e.name.clone()).collect();
    assert_eq!(cur, vec!["beta.md"]);
    p.cursor = 0;
    assert!(p.get_selected_or_current().is_empty());
}

#[test]
fn quick_search_and_navigation() {
    let mut p = Panel::new("/home/u".to_string(), listing());
    assert!(p.quick_search("BE"));
    assert_eq!(p.entries[p.cursor].name, "beta.md");
    assert!(!p.quick_search("nothing"));
    assert_eq!(p.entries[p.cursor].name, "beta.md");
    p.cursor = 2;
    assert_eq!(p.enter_target(), Some("/home/u/docs".to_string()));
    let entered = p.enter_dir(vec![file("/home/u/docs", "readme", 1, false, None)]);
    assert!(entered);
    assert_eq!(p.path, "/home/u/docs");
    assert_eq!(names(&p), vec!["..", "readme"]);
    p.cursor = 1;
    assert!(!p.enter_dir(Vec::new()));
    p.go_up(listing());
    assert_eq!(p.path, "/home/u");
    assert_eq!(p.entries[p.cursor].name, "docs");
}

#[test]
fn hidden_files_and_filter() {
    let mut p = Panel::new("/home/u".to_string(), Vec::new());
    p.show_hidden = true;
    p.filter = Some("*.md".to_string());
    p.load_directory(listing());
    assert_eq!(names(&p), vec!["..", "Bin", "docs", "beta.md"]);
    assert_eq!(p.current_entry().map(|e| e.name.clone()), Some("..".to_string()));
}

#[test]
fn comparing_panels() {
    let mut left = Panel::new(
        "/a".to_string(),
        vec![file("/a", "same", 5, false, None), file("/a", "bigger", 9, false, None), file("/a", "lonely", 1, false, None)],
    );
    let mut right = Panel::new(
        "/b".to_string(),
        vec![file("/b", "same", 5, false, None), file("/b", "bigger", 3, false, None), file("/b", "extra", 1, false, None), file("/b", "other", 2, false, None)],
    );
    let (l, r, d) = rdn::compare::compare_panels(&mut left, &mut right);
    assert_eq!((l, r, d), (1, 2, 1));
    let sel = |p: &Panel| -> Vec<String> { p.entries.iter().filter(|e| e.selected).map(|e| e.name.clone()).collect() };
    assert_eq!(sel(&left), vec!["bigger", "lonely"]);
    assert_eq!(sel(&right), vec!["bigger", "extra", "other"]);
    assert!(!left.entries[0].selected);
    assert_eq!(rdn::compare::compare_summary(l, r, d), "Left only: 1, Right only: 2, Different: 1");
}

#[test]
fn typed_filters() {
    let mut p = Panel::new("/home/u".to_string(), listing());
    p.cursor_end();
    p.apply_filter("*.rs", listing());
    assert_eq!(p.filter, Some("*.rs".to_string()));
    assert_eq!(names(&p), vec!["..", "Bin", "docs", "Alpha.rs"]);
    assert_eq!(p.cursor, 0);
    p.apply_filter("*.*", listing());
    assert_eq!(p.filter, None);
    assert_eq!(names(&p).len(), 6);
    p.apply_filter("*.md", listing());
    p.apply_filter("", listing());
    assert_eq!(p.filter, None);
    p.apply_filter("*", listing());
    assert_eq!(p.filter, None);
}

#[test]
fn branch_view() {
    let mut p = Panel::new("/home/u".to_string(), listing());
    assert!(!p.is_branch());
    p.cursor_end();
    p.show_branch(vec![file("/home/u", "docs/a.txt", 5, false, None), file("/home/u", "b.txt", 6, false, None)]);
    assert!(p.is_branch());
    assert_eq!(names(&p), vec!["..", "docs/a.txt", "b.txt"]);
    assert_eq!(p.cursor, 0);
    let mut root = Panel::new("/".to_string(), Vec::new());
    root.show_branch(Vec::new());
    assert!(root.entries.is_empty());
}

#[test]
fn counted_directory_sizes() {
    let mut p = Panel::new("/home/u".to_string(), listing());
    // "..", "Bin", "docs", "Alpha.rs", "beta.md", "zeta.txt"
    let sizes = vec![Some(9), Some(4096), None, Some(1), None, None];
    p.apply_dir_sizes(&sizes);
    let got: Vec<u64> = p.entries.iter().map(|e| e.size).collect();
    assert_eq!(got, vec![0, 4096, 0, 100, 200, 300]);
}
