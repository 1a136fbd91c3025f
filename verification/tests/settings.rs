use rdn::config::{config_dir_in, config_path_in, Config};
use rdn::theme::{dos_palette, FileLook, Theme, NUM_SLOTS, SLOT_CMD_LINE, SLOT_CURSOR_ACTIVE, SLOT_FILE_DIR, SLOT_PANEL_BG};
use rdn::types::{PanelMode, SortMode};

fn expected_text(c: &Config) -> String {
    fn sort(s: &SortMode) -> &'static str {
        match s {
            SortMode::Name => "name",
            SortMode::Extension => "extension",
            SortMode::Size => "size",
            SortMode::Date => "date",
            SortMode::Unsorted => "unsorted",
        }
    }
    fn mode(m: &PanelMode) -> &'static str {
        match m {
            PanelMode::Brief => "brief",
            PanelMode::Full => "full",
        }
    }
    let esc = |p: &str| p.replace('\\', "\\\\").replace('"', "\\\"");
    let content = format!(
        "# RDN - Rust Dos Navigator configuration\n# Auto-generated. Edit carefully.\n\n[panels]\nleft_path = \"{}\"\nright_path = \"{}\"\nleft_sort = \"{}\"\nright_sort = \"{}\"\nleft_mode = \"{}\"\nright_mode = \"{}\"\nshow_hidden = {}\n\n[editor]\ntab_size = {}\nauto_indent = {}\nword_wrap = {}\n",
        esc(&c.left_path),
        esc(&c.right_path),
        sort(&c.left_sort),
        sort(&c.right_sort),
        mode(&c.left_mode),
        mode(&c.right_mode),
        c.show_hidden,
        c.editor_tab_size,
        c.editor_auto_indent,
        c.editor_word_wrap,
    );
    let content = format!(
        "{content}\n[confirmations]\ndelete = {}\noverwrite = {}\nexit = {}\n",
        c.confirm_delete, c.confirm_overwrite, c.confirm_exit
    );
    let content = format!("{content}\n[theme]\noverrides = \"{}\"\n", c.theme_overrides.join(","));
    format!("{content}\n[bookmarks]\npaths = \"{}\"\n", c.bookmarks.join("|"))
}

fn sample() -> Config {
    let mut c = Config::default_in("/home/u".to_string());
    c.left_path = "/srv/data".to_string();
    c.right_sort = SortMode::Size;
    c.left_mode = PanelMode::Brief;
    c.show_hidden = true;
    c.editor_tab_size = 8;
    c.editor_word_wrap = true;
    c.confirm_exit = true;
    c.theme_overrides = vec!["1:2:3".to_string(), "4:5:6".to_string()];
    c.bookmarks = vec!["/a".to_string(), "/b c".to_string()];
    c
}

#[test]
fn defaults() {
    let c = Config::default_in("/w".to_string());
    assert_eq!(c.left_path, "/w");
    assert_eq!(c.right_path, "/w");
    assert_eq!(c.left_mode, PanelMode::Full);
    assert_eq!(c.editor_tab_size, 4);
    assert!(c.editor_auto_indent && c.confirm_delete && c.confirm_overwrite);
    assert!(!c.show_hidden && !c.confirm_exit && !c.editor_word_wrap);
    assert!(c.theme_overrides.is_empty() && c.bookmarks.is_empty());
}

#[test]
fn settings_text_matches_layout() {
    let c = sample();
    assert_eq!(c.to_text(), expected_text(&c));
    let d = Config::default_in("/x".to_string());
    assert_eq!(d.to_text(), expected_text(&d));
}

#[test]
fn save_then_load_gives_back_the_settings() {
    let c = sample();
    let back = Config::from_text(&c.to_text(), "/elsewhere".to_string());
    assert_eq!(back.left_path, c.left_path);
    assert_eq!(back.right_path, c.right_path);
    assert_eq!(back.left_sort, c.left_sort);
    assert_eq!(back.right_sort, c.right_sort);
    assert_eq!(back.left_mode, c.left_mode);
    assert_eq!(back.right_mode, c.right_mode);
    assert_eq!(back.show_hidden, c.show_hidden);
    assert_eq!(back.editor_tab_size, c.editor_tab_size);
    assert_eq!(back.editor_auto_indent, c.editor_auto_indent);
    assert_eq!(back.editor_word_wrap, c.editor_word_wrap);
    assert_eq!(back.confirm_delete, c.confirm_delete);
    assert_eq!(back.confirm_overwrite, c.confirm_overwrite);
    assert_eq!(back.confirm_exit, c.confirm_exit);
    assert_eq!(back.theme_overrides, c.theme_overrides);
    assert_eq!(back.bookmarks, c.bookmarks);
}

#[test]
fn loading_odd_text() {
    let text = "# comment\n[panels]\n  left_sort = \"bogus\"\nright_mode=\"brief\"\ntab_size = x7\nshow_hidden = yes\nunknown = 1\nno equals sign\noverrides = \" , 1:1:1 ,,\"\npaths = \"\"\n";
    let c = Config::from_text(text, "/d".to_string());
    assert_eq!(c.left_sort, SortMode::Name);
    assert_eq!(c.right_mode, PanelMode::Brief);
    assert_eq!(c.editor_tab_size, 4);
    assert!(!c.show_hidden);
    assert_eq!(c.theme_overrides, vec!["1:1:1"]);
    assert_eq!(c.bookmarks, vec![""]);
    assert_eq!(c.left_path, "/d");
    let c = Config::from_text("tab_size = 12\nexit = true\nleft_path = \"/q\"\n", "/d".to_string());
    assert_eq!(c.editor_tab_size, 12);
    assert!(c.confirm_exit);
    assert_eq!(c.left_path, "/q");
}

#[test]
fn settings_locations() {
    assert_eq!(config_dir_in(Some("/home/u")), "/home/u/.config/rdn");
    assert_eq!(config_path_in(Some("/home/u")), "/home/u/.config/rdn/config.toml");
    assert_eq!(config_dir_in(None), ".rdn");
    assert_eq!(config_path_in(None), ".rdn/config.toml");
    assert!(Config::config_path().ends_with("config.toml"));
    assert!(Config::config_dir().ends_with("rdn"));
}

#[test]
fn theme_slots() {
    let mut t = Theme::new();
    assert_eq!(t.slot_indices(SLOT_PANEL_BG), (7, 8));
    assert_eq!(t.slot_indices(SLOT_FILE_DIR), (15, 8));
    assert_eq!(t.slot_indices(SLOT_CMD_LINE), (7, 0));
    assert_eq!(t.slot_indices(NUM_SLOTS + SLOT_CURSOR_ACTIVE), (0, 3));
    t.set_slot(SLOT_FILE_DIR, 14, 1);
    assert_eq!(t.slot_indices(SLOT_FILE_DIR), (14, 1));
    assert_eq!(t.export_overrides(), vec!["2:14:1"]);
    t.set_slot(SLOT_FILE_DIR, 15, 8);
    assert_eq!(t.slot_indices(SLOT_FILE_DIR), (15, 8));
    assert!(t.export_overrides().is_empty());
    assert_eq!(dos_palette(6), (170, 85, 0));
    assert_eq!(dos_palette(15), (255, 255, 255));
}

#[test]
fn theme_import_export() {
    let mut t = Theme::new();
    t.import_overrides(&[
        "1:2:3".to_string(),
        "13:1:1".to_string(),
        "4:16:1".to_string(),
        "5:+2:4".to_string(),
        "junk".to_string(),
        "1:9:9".to_string(),
        "6:1".to_string(),
    ]);
    assert_eq!(t.slot_indices(1), (9, 9));
    assert_eq!(t.slot_indices(5), (2, 4));
    assert_eq!(t.slot_indices(4), (14, 8));
    assert_eq!(t.slot_indices(13), (7, 8));
    assert_eq!(t.export_overrides(), vec!["1:9:9", "5:2:4"]);
    let mut u = Theme::new();
    u.set_slot(0, 3, 3);
    u.import_overrides(&t.export_overrides());
    for s in 0..NUM_SLOTS {
        assert_eq!(u.slot_indices(s), t.slot_indices(s));
    }
    assert_eq!(u.overrides, t.overrides);
}

#[test]
fn highlight_groups() {
    assert_eq!(Theme::highlight_group_color("zip"), Some((255, 85, 85)));
    assert_eq!(Theme::highlight_group_color("rs"), Some((85, 255, 255)));
    assert_eq!(Theme::highlight_group_color("toml"), Some((85, 255, 85)));
    assert_eq!(Theme::highlight_group_color("md"), Some((255, 85, 255)));
    assert_eq!(Theme::highlight_group_color("png"), Some((255, 255, 85)));
    assert_eq!(Theme::highlight_group_color("mkv"), Some((85, 85, 255)));
    assert_eq!(Theme::highlight_group_color("sh"), Some((0, 170, 0)));
    assert_eq!(Theme::highlight_group_color("wasm"), Some((0, 170, 170)));
    assert_eq!(Theme::highlight_group_color("ZIP"), None);
    assert_eq!(Theme::highlight_group_color("unknown"), None);
    assert_eq!(Theme::highlight_group_color(""), None);
}

fn plain_entry(path: &str) -> rdn::types::FileEntry {
    rdn::types::FileEntry {
        name: path.rsplit('/').next().unwrap_or(path).to_string(),
        path: path.to_string(),
        is_dir: false,
        is_symlink: false,
        size: 0,
        modified: None,
        is_readonly: false,
        is_hidden: false,
        is_executable: false,
        selected: false,
    }
}

#[test]
fn file_looks_by_kind_and_extension() {
    let mut e = plain_entry("/x/Photo.JPG");
    assert_eq!(Theme::file_style(&e, false, true), FileLook::Fixed(14, 8));
    assert_eq!(Theme::file_style(&e, true, true), FileLook::Slot(SLOT_CURSOR_ACTIVE));
    assert_eq!(Theme::file_style(&e, true, false), FileLook::InactiveCursor);
    e.is_executable = true;
    assert_eq!(Theme::file_style(&e, false, false), FileLook::Fixed(10, 8));
    e.is_hidden = true;
    assert_eq!(Theme::file_style(&e, false, false), FileLook::Fixed(3, 8));
    e.is_symlink = true;
    assert_eq!(Theme::file_style(&e, false, false), FileLook::Fixed(13, 8));
    e.is_dir = true;
    assert_eq!(Theme::file_style(&e, false, false), FileLook::Slot(SLOT_FILE_DIR));
    e.selected = true;
    assert_eq!(Theme::file_style(&e, false, false), FileLook::Slot(rdn::theme::SLOT_FILE_SELECTED));
    let n = plain_entry("/x/notes.xyz");
    assert_eq!(Theme::file_style(&n, false, true), FileLook::Slot(rdn::theme::SLOT_FILE_NORMAL));
    let t = plain_entry("/x/a.tar.GZ");
    assert_eq!(Theme::file_style(&t, false, true), FileLook::Fixed(12, 8));
}

#[test]
fn importing_default_colours_leaves_no_override() {
    let mut t = Theme::new();
    t.import_overrides(&["0:7:8".to_string(), "1:2:3".to_string()]);
    assert_eq!(t.export_overrides(), vec!["1:2:3".to_string()]);
    t.import_overrides(&["1:2:3".to_string(), "1:7:8".to_string()]);
    assert!(t.export_overrides().is_empty());
}
