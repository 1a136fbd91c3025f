use rdn::archive::{zip_time_secs, ArchiveBrowser, ArchiveEntry, ArchiveType};
use rdn::dirtree::{ChildDir, DirTree};
use rdn::filefind::{Candidate, FileFinder};
use rdn::usermenu::{default_menu, menu_file_path, UserMenuData};

fn ae(path: &str, is_dir: bool, size: u64) -> ArchiveEntry {
    ArchiveEntry {
        name: path.to_string(),
        path: path.to_string(),
        is_dir,
        size,
        compressed_size: size,
        modified: None,
    }
}

fn shown(b: &ArchiveBrowser) -> Vec<String> {
    b.visible_entries().into_iter().map(|e| e.name).collect()
}

#[test]
fn archive_kinds_and_open() {
    assert_eq!(ArchiveBrowser::archive_type_of("/x/a.ZIP"), Some(ArchiveType::Zip));
    assert_eq!(ArchiveBrowser::archive_type_of("b.epub"), Some(ArchiveType::Zip));
    assert_eq!(ArchiveBrowser::archive_type_of("c.tar.gz"), Some(ArchiveType::TarGz));
    assert_eq!(ArchiveBrowser::archive_type_of("c.tgz"), Some(ArchiveType::TarGz));
    assert_eq!(ArchiveBrowser::archive_type_of("d.tar"), Some(ArchiveType::Tar));
    assert_eq!(ArchiveBrowser::archive_type_of("e.rar"), None);
    assert!(ArchiveBrowser::is_archive("f.jar"));
    assert!(!ArchiveBrowser::is_archive("noext"));
    assert_eq!(ArchiveBrowser::open("e.RAR".to_string()).err(), Some("Unsupported archive format: .rar".to_string()));
    assert_eq!(ArchiveBrowser::open("noext".to_string()).err(), Some("Unsupported archive format: .".to_string()));
    let b = ArchiveBrowser::open("/tmp/a.zip".to_string()).unwrap();
    assert_eq!(b.archive_type, ArchiveType::Zip);
    assert!(b.entries.is_empty());
    assert_eq!(b.visible_height, 20);
    assert_eq!(b.title(), "a.zip");
}

#[test]
fn archive_levels() {
    let mut b = ArchiveBrowser::open("/tmp/a.zip".to_string()).unwrap();
    b.entries = vec![
        ae("src/", true, 0),
        ae("src/main.rs", false, 10),
        ae("src/lib/mod.rs", false, 3),
        ae("README.md", false, 5),
        ae("docs/guide.txt", false, 7),
        ae("Zeta/", true, 0),
    ];
    assert_eq!(shown(&b), vec!["docs", "src", "Zeta", "README.md"]);
    let top = b.visible_entries();
    assert_eq!(top[0].path, "docs/");
    assert!(top[0].is_readonly);
    assert_eq!(top[3].size, 5);
    b.cursor = 1;
    b.enter_dir();
    assert_eq!(b.current_dir, "src/");
    assert_eq!(b.cursor, 0);
    assert_eq!(b.title(), "a.zip:src/");
    assert_eq!(shown(&b), vec!["..", "lib", "main.rs"]);
    b.cursor = 1;
    b.enter_dir();
    assert_eq!(b.current_dir, "src/lib/");
    assert_eq!(shown(&b), vec!["..", "mod.rs"]);
    b.cursor = 1;
    b.enter_dir();
    assert_eq!(b.current_dir, "src/lib/");
    b.cursor = 0;
    b.enter_dir();
    assert_eq!(b.current_dir, "src/");
    b.enter_dir();
    assert_eq!(b.current_dir, "");
}

#[test]
fn archive_cursor() {
    let mut b = ArchiveBrowser::open("a.tar".to_string()).unwrap();
    for i in 0..10 {
        b.entries.push(ae(&format!("f{}", i), false, 1));
    }
    b.visible_height = 3;
    b.cursor_down();
    b.cursor_down();
    b.cursor_down();
    assert_eq!((b.cursor, b.scroll_offset), (3, 1));
    b.page_down();
    assert_eq!(b.cursor, 6);
    b.page_down();
    b.page_down();
    assert_eq!(b.cursor, 9);
    b.page_up();
    assert_eq!(b.cursor, 6);
    b.cursor_up();
    assert_eq!(b.cursor, 5);
}

#[test]
fn zip_times() {
    assert_eq!(zip_time_secs(1970, 1, 1, 0, 0), 86400);
    assert_eq!(zip_time_secs(2000, 3, 15, 12, 30), ((30 * 365 + 2 * 30 + 15) * 86400 + 12 * 3600 + 30 * 60) as u64);
}

fn cd(name: &str, parent: &str, has_children: bool) -> ChildDir {
    ChildDir { name: name.to_string(), path: format!("{}/{}", parent, name), has_children }
}

fn tree_names(t: &DirTree) -> Vec<(String, usize)> {
    t.nodes.iter().map(|n| (n.name.clone(), n.depth)).collect()
}

#[test]
fn dir_tree_expand_collapse() {
    let mut t = DirTree::new(
        "/r".to_string(),
        true,
        vec![cd("b", "/r", true), cd(".git", "/r", true), cd("A", "/r", false)],
    );
    assert_eq!(tree_names(&t), vec![("/r".to_string(), 0), ("A".to_string(), 1), ("b".to_string(), 1)]);
    t.cursor = 2;
    t.toggle_expand(vec![cd("y", "/r/b", false), cd("x", "/r/b", false)]);
    assert_eq!(
        tree_names(&t),
        vec![("/r".to_string(), 0), ("A".to_string(), 1), ("b".to_string(), 1), ("x".to_string(), 2), ("y".to_string(), 2)]
    );
    assert!(t.nodes[2].expanded);
    assert_eq!(t.selected_path(), Some("/r/b"));
    t.toggle_expand(Vec::new());
    assert_eq!(tree_names(&t), vec![("/r".to_string(), 0), ("A".to_string(), 1), ("b".to_string(), 1)]);
    assert!(!t.nodes[2].expanded);
    t.cursor = 1;
    t.toggle_expand(vec![cd("z", "/r/A", false)]);
    assert_eq!(t.nodes.len(), 3);
    t.enter(vec![cd("z", "/r/A", false)]);
    assert_eq!(t.nodes.len(), 4);
    assert_eq!(t.nodes[2].name, "z");
    t.collapse_node(0);
    assert_eq!(t.nodes.len(), 1);
    t.expand_node(7, Vec::new());
    assert_eq!(t.nodes.len(), 1);
}

#[test]
fn dir_tree_cursor() {
    let kids: Vec<ChildDir> = (0..30).map(|i| cd(&format!("d{:02}", i), "/r", false)).collect();
    let mut t = DirTree::new("/r".to_string(), true, kids);
    t.visible_height = 5;
    t.page_down();
    assert_eq!(t.cursor, 4);
    for _ in 0..3 {
        t.cursor_down();
    }
    assert_eq!((t.cursor, t.scroll_offset), (7, 3));
    t.page_up();
    assert_eq!((t.cursor, t.scroll_offset), (3, 3));
    t.cursor_up();
    assert_eq!((t.cursor, t.scroll_offset), (2, 2));
    for _ in 0..100 {
        t.page_down();
    }
    assert_eq!(t.cursor, 30);
    assert_eq!(t.selected_path(), Some("/r/d29"));
}

fn cand(path: &str, is_dir: bool, lines: Option<Vec<Option<String>>>) -> Candidate {
    let name = path.rsplit('/').next().unwrap().to_string();
    Candidate { path: path.to_string(), name, size: 1, is_dir, lines }
}

#[test]
fn file_finder_search() {
    let mut f = FileFinder::new("/r".to_string());
    assert_eq!(f.pattern, "*");
    assert_eq!(f.visible_height, 15);
    f.pattern = "*.TXT".to_string();
    assert!(f.matches_pattern("notes.txt"));
    assert!(!f.matches_pattern("notes.md"));
    f.case_sensitive = true;
    assert!(!f.matches_pattern("notes.txt"));
    f.case_sensitive = false;
    assert!(!f.wants_content("a.txt", false));
    f.execute(vec![
        cand("/r/a.txt", false, None),
        cand("/r/sub", true, None),
        cand("/r/sub/b.TXT", false, None),
        cand("/r/c.md", false, None),
    ]);
    let names: Vec<String> = f.results.iter().map(|r| r.name.clone()).collect();
    assert_eq!(names, vec!["a.txt", "b.TXT"]);
    assert!(f.search_complete);
    assert!(!f.searching);
    assert_eq!(f.current_result().map(|r| r.path.clone()), Some("/r/a.txt".to_string()));
}

#[test]
fn file_finder_content() {
    let mut f = FileFinder::new("/r".to_string());
    f.content_query = "Needle".to_string();
    assert!(f.wants_content("x", false));
    assert!(!f.wants_content("x", true));
    let long = format!("{}needle", "x".repeat(90));
    let lines = vec![Some("hay".to_string()), None, Some(long.clone())];
    let hit = f.content_match(&lines);
    assert_eq!(hit, Some((3, format!("{}...", &long[..77]))));
    assert_eq!(f.content_match(&vec![Some("hay".to_string())]), None);
    f.case_sensitive = true;
    assert_eq!(f.content_match(&lines), None);
    f.case_sensitive = false;
    f.execute(vec![
        cand("/r/a", false, Some(vec![Some("the NEEDLE".to_string())])),
        cand("/r/b", false, Some(vec![Some("nothing".to_string())])),
        cand("/r/c", false, None),
        cand("/r/d", true, None),
    ]);
    let got: Vec<(String, Option<(usize, String)>)> =
        f.results.iter().map(|r| (r.name.clone(), r.match_line.clone())).collect();
    assert_eq!(
        got,
        vec![("a".to_string(), Some((1, "the NEEDLE".to_string()))), ("d".to_string(), None)]
    );
}

#[test]
fn file_finder_cursor() {
    let mut f = FileFinder::new("/r".to_string());
    let cands: Vec<Candidate> = (0..40).map(|i| cand(&format!("/r/f{}", i), false, None)).collect();
    f.execute(cands);
    assert_eq!(f.results.len(), 40);
    f.page_down();
    assert_eq!(f.cursor, 14);
    f.cursor_down();
    assert_eq!((f.cursor, f.scroll_offset), (15, 1));
    f.page_up();
    assert_eq!((f.cursor, f.scroll_offset), (1, 1));
    f.cursor_up();
    assert_eq!((f.cursor, f.scroll_offset), (0, 0));
    f.cursor_up();
    assert_eq!(f.cursor, 0);
}

#[test]
fn user_menu_loading() {
    let m = UserMenuData::load(&default_menu());
    let labels: Vec<String> = m.items.iter().map(|i| i.label.clone()).collect();
    assert_eq!(labels[0], "");
    assert!(m.items[0].is_separator);
    assert_eq!(m.selectable_count(), 8);
    assert_eq!(m.current_item().map(|i| i.command.clone()), Some("git status".to_string()));
    let mut m = UserMenuData::load("# only\nA = cmd a\n\n no equals \nB=x=y\n");
    assert_eq!(m.items.len(), 3);
    assert_eq!(m.items[2].command, "x=y");
    m.cursor_down();
    assert_eq!(m.current_item().map(|i| i.label.clone()), Some("B".to_string()));
    m.cursor_down();
    assert_eq!(m.cursor, 1);
    m.cursor_up();
    m.cursor_up();
    assert_eq!(m.cursor, 0);
    let empty = UserMenuData::load("# nothing\n");
    assert_eq!(empty.items.len(), 1);
    assert_eq!(empty.items[0].label, "No items configured");
    assert_eq!(menu_file_path(Some("/home/u")), "/home/u/.config/rdn/menu.txt");
    assert_eq!(menu_file_path(None), "./.config/rdn/menu.txt");
}

#[test]
fn user_menu_substitution() {
    let r = UserMenuData::substitute_command("cp %f %p/%n.bak.%e in %d", Some("/a/b/file.tar.gz"), "/a/b", Some("/other"));
    assert_eq!(r, "cp /a/b/file.tar.gz /other/file.tar.bak.gz in /a/b");
    let r = UserMenuData::substitute_command("x%f|%n|%e|%p|%d", None, "/d", None);
    assert_eq!(r, "x||||/d");
}
