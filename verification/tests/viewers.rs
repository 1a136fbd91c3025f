use rdn::dbf::{parse_csv_row, DbfData, SourceType};
use rdn::help::{HelpViewer, HELP_TOPICS};
use rdn::viewer::{highlight_ranges, Viewer, ViewerMode};

#[test]
fn help_navigation_and_back() {
    let mut h = HelpViewer::new();
    assert_eq!(h.topics.len(), HELP_TOPICS);
    assert_eq!(h.current_topic, 0);
    assert!(h.current().title.contains("Contents"));
    h.goto_topic(3);
    assert_eq!(h.current_topic, 3);
    assert_eq!(h.history, vec![0]);
    h.scroll_down();
    h.goto_topic(7);
    assert_eq!(h.scroll, 0);
    h.go_back();
    assert_eq!(h.current_topic, 3);
    h.go_back();
    assert_eq!(h.current_topic, 0);
    assert!(h.history.is_empty());
    h.go_back();
    assert_eq!(h.current_topic, 0);
    h.goto_topic(HELP_TOPICS);
    assert_eq!(h.current_topic, 0);
    assert!(h.history.is_empty());
}

#[test]
fn help_topic_cycle_and_paging() {
    let mut h = HelpViewer::new();
    h.prev_topic();
    assert_eq!(h.current_topic, 0);
    assert!(h.history.is_empty());
    h.next_topic();
    h.next_topic();
    assert_eq!(h.current_topic, 2);
    h.prev_topic();
    assert_eq!(h.current_topic, 1);
    assert_eq!(h.history, vec![0, 1, 2]);
    h.current_topic = HELP_TOPICS - 1;
    h.next_topic();
    assert_eq!(h.current_topic, HELP_TOPICS - 1);
    h.current_topic = 0;
    h.visible_height = 3;
    let len = h.current().content.len();
    assert_eq!(h.visible_lines().len(), 3.min(len));
    for _ in 0..1000 {
        h.scroll_down();
    }
    assert_eq!(h.scroll, len.saturating_sub(3));
    h.page_up();
    assert_eq!(h.scroll, len.saturating_sub(3).saturating_sub(3));
    h.scroll_up();
    h.page_down();
    assert!(h.scroll <= len.saturating_sub(3));
}

fn hex_oracle(data: &[u8], start: usize, count: usize) -> Vec<(String, String, String)> {
    let mut result = Vec::new();
    for i in 0..count {
        let offset = (start + i) * 16;
        if offset >= data.len() {
            break;
        }
        let end = (offset + 16).min(data.len());
        let chunk = &data[offset..end];
        let offset_str = format!("{:08X}", offset);
        let mut hex_str = String::new();
        for (j, byte) in chunk.iter().enumerate() {
            if j == 8 {
                hex_str.push(' ');
            }
            hex_str.push_str(&format!("{:02X} ", byte));
        }
        for j in 0..16 - chunk.len() {
            if chunk.len() + j == 8 {
                hex_str.push(' ');
            }
            hex_str.push_str("   ");
        }
        let ascii: String = chunk.iter().map(|&b| if (0x20..=0x7E).contains(&b) { b as char } else { '.' }).collect();
        result.push((offset_str, hex_str, ascii));
    }
    result
}

#[test]
fn viewer_text_and_hex() {
    let v = Viewer::from_bytes("/tmp/a.txt".to_string(), b"one\r\ntwo\nthree".to_vec(), 14);
    assert_eq!(v.mode, ViewerMode::Text);
    assert_eq!(v.lines, vec!["one", "two", "three"]);
    assert_eq!(v.total_lines(), 3);
    let empty = Viewer::from_bytes("e".to_string(), Vec::new(), 0);
    assert_eq!(empty.lines, vec![""]);
    let mut data: Vec<u8> = (0u8..=40).collect();
    data.extend_from_slice(b"Hello, world!~\x7f");
    let mut b = Viewer::from_bytes("/tmp/b.bin".to_string(), data.clone(), data.len() as u64);
    assert_eq!(b.mode, ViewerMode::Hex);
    assert_eq!(b.total_lines(), (data.len() + 15) / 16);
    assert_eq!(b.hex_lines(0, 10), hex_oracle(&data, 0, 10));
    assert_eq!(b.hex_lines(2, 2), hex_oracle(&data, 2, 2));
    assert_eq!(b.hex_lines(100, 2), Vec::new());
    b.toggle_mode();
    assert_eq!(b.mode, ViewerMode::Text);
    b.toggle_wrap();
    assert!(b.wrap);
}

#[test]
fn viewer_scrolling() {
    let text: String = (0..50).map(|i| format!("line {}\n", i)).collect();
    let mut v = Viewer::from_bytes("t".to_string(), text.into_bytes(), 0);
    v.visible_height = 10;
    v.scroll_end();
    assert_eq!(v.scroll_offset, 40);
    v.scroll_down();
    assert_eq!(v.scroll_offset, 40);
    v.page_up();
    assert_eq!(v.scroll_offset, 31);
    v.page_down();
    assert_eq!(v.scroll_offset, 40);
    v.scroll_home();
    assert_eq!(v.scroll_offset, 0);
    v.scroll_up();
    assert_eq!(v.scroll_offset, 0);
    v.scroll_right();
    v.scroll_right();
    v.scroll_left();
    assert_eq!(v.horizontal_offset, 1);
}

#[test]
fn viewer_search_matches() {
    let mut text = String::new();
    for i in 0..40 {
        if i == 30 {
            text.push_str("Needle and NEEDLE\n");
        } else if i == 5 {
            text.push_str("aaa needle\n");
        } else {
            text.push_str("hay\n");
        }
    }
    let mut v = Viewer::from_bytes("t".to_string(), text.into_bytes(), 0);
    v.visible_height = 10;
    v.search("neeDLE");
    assert_eq!(v.search_query, Some("neeDLE".to_string()));
    assert_eq!(v.search_matches, vec![(5, 4), (30, 0), (30, 11)]);
    assert_eq!(v.current_match, 0);
    assert_eq!(v.scroll_offset, 0);
    v.next_match();
    assert_eq!(v.current_match, 1);
    assert_eq!(v.scroll_offset, 25);
    v.next_match();
    v.next_match();
    assert_eq!(v.current_match, 0);
    v.prev_match();
    assert_eq!(v.current_match, 2);
    v.search("aa");
    assert_eq!(v.search_matches, vec![(5, 0), (5, 1)]);
    v.search("zzz");
    assert!(v.search_matches.is_empty());
}

fn dbf_bytes() -> Vec<u8> {
    let mut d = vec![0u8; 32];
    d[0] = 0x03;
    d[4] = 3;
    let header: u16 = 32 + 2 * 32 + 1;
    d[8..10].copy_from_slice(&header.to_le_bytes());
    d[10..12].copy_from_slice(&9u16.to_le_bytes());
    let mut f1 = vec![0u8; 32];
    f1[..4].copy_from_slice(b"NAME");
    f1[11] = b'C';
    f1[16] = 5;
    let mut f2 = vec![0u8; 32];
    f2[..3].copy_from_slice(b"AGE");
    f2[11] = b'N';
    f2[16] = 3;
    d.extend(f1);
    d.extend(f2);
    d.push(0x0D);
    d.extend_from_slice(b" Bob   42");
    d.extend_from_slice(b"*Del    1");
    d.extend_from_slice(b" Al     7");
    d
}

#[test]
fn dbf_reading() {
    let d = dbf_bytes();
    assert!(DbfData::is_readable(&d));
    let t = DbfData::parse_dbf(&d, "people.dbf".to_string()).unwrap();
    assert_eq!(t.num_cols(), 2);
    assert_eq!(t.fields[0].name, "NAME");
    assert_eq!(t.fields[0].field_type, 'C');
    assert_eq!(t.fields[1].length, 3);
    assert_eq!(t.records, vec![vec!["Bob", "42"], vec!["Al", "7"]]);
    assert_eq!(t.source_type, SourceType::Dbf);
    assert_eq!(t.filename, "people.dbf");
    assert_eq!(t.col_width(0), 5);
    assert_eq!(t.col_width(1), 4);
    assert_eq!(t.col_width(9), 10);
}

#[test]
fn dbf_errors() {
    assert_eq!(
        DbfData::parse_dbf(&[0u8; 10], "x".to_string()).err(),
        Some("File too small — not a valid DBF".to_string())
    );
    let mut bad = dbf_bytes();
    bad[8] = 10;
    bad[9] = 0;
    assert_eq!(DbfData::parse_dbf(&bad, "x".to_string()).err(), Some("Invalid DBF header".to_string()));
    let mut nofields = vec![0u8; 33];
    nofields[8] = 33;
    nofields[10] = 1;
    nofields[32] = 0x0D;
    assert_eq!(DbfData::parse_dbf(&nofields, "x".to_string()).err(), Some("No fields found in DBF".to_string()));
    let mut truncated = dbf_bytes();
    truncated.truncate(truncated.len() - 5);
    assert!(!DbfData::is_readable(&truncated));
}

#[test]
fn csv_reading_and_navigation() {
    assert_eq!(parse_csv_row(" a , \"b,c\" ,d"), vec!["a", "b,c", "d"]);
    assert_eq!(parse_csv_row(""), vec![""]);
    assert_eq!(DbfData::parse_csv("", "e.csv".to_string()).err(), Some("Empty CSV file".to_string()));
    let mut t = DbfData::parse_csv("id,name\n1,x\n2,y\n3,z\n", "t.csv".to_string()).unwrap();
    assert_eq!(t.source_type, SourceType::Csv);
    assert_eq!(t.num_rows(), 3);
    assert_eq!(t.fields[1].length, 20);
    assert_eq!(t.records[2], vec!["3", "z"]);
    t.cursor_down(2);
    t.cursor_down(2);
    assert_eq!(t.row_cursor, 2);
    assert_eq!(t.row_scroll, 1);
    t.cursor_down(2);
    assert_eq!(t.row_cursor, 2);
    t.cursor_up();
    t.cursor_up();
    assert_eq!(t.row_scroll, 0);
    t.cursor_right(1);
    assert_eq!((t.col_cursor, t.col_scroll), (1, 1));
    t.cursor_right(1);
    assert_eq!(t.col_cursor, 1);
    t.cursor_left();
    assert_eq!((t.col_cursor, t.col_scroll), (0, 0));
    t.page_down(10);
    assert_eq!(t.row_cursor, 2);
    t.page_up(1);
    assert_eq!(t.row_cursor, 1);
    t.end();
    assert_eq!(t.row_cursor, 2);
    t.home();
    assert_eq!((t.row_cursor, t.row_scroll, t.col_cursor, t.col_scroll), (0, 0, 0, 0));
}

#[test]
fn help_topic_titles_and_links() {
    let h = rdn::help::HelpViewer::new();
    let titles: Vec<&str> = h.topics.iter().map(|t| t.title.as_str()).collect();
    assert_eq!(
        titles,
        vec![
            "RDN Help — Table of Contents", "General Keys", "Panel Navigation", "File Operations", "Built-in Viewer",
            "Built-in Editor", "Menu System", "Archive Browser", "Utilities", "Command Line", "Configuration",
            "Quick Reference",
        ]
    );
    assert!(h.topics.iter().all(|t| t.links.is_empty()));
    assert_eq!(h.topics[0].content[9], "  1. General Keys .......................... →");
}

#[test]
fn highlighted_occurrences_without_overlap() {
    assert_eq!(highlight_ranges("Foo foo FOO", "foo"), vec![(0, 3), (4, 7), (8, 11)]);
    assert_eq!(highlight_ranges("aaaa", "aa"), vec![(0, 2), (2, 4)]);
    assert_eq!(highlight_ranges("abc", ""), Vec::<(usize, usize)>::new());
    assert_eq!(highlight_ranges("ab", "abc"), Vec::<(usize, usize)>::new());
}
