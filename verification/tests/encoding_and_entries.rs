use rdn::splitfile::{chunk_name, chunk_path, is_first_chunk, split_sizes, DEFAULT_CHUNK_SIZE};
use rdn::types::{ActivePanel, FileEntry, SortMode};
use rdn::uucode::{uu_decode, uu_encode};

fn entry(name: &str, size: u64, is_dir: bool) -> FileEntry {
    FileEntry {
        name: name.to_string(),
        path: format!("/tmp/{}", name),
        is_dir,
        is_symlink: false,
        size,
        modified: None,
        is_readonly: false,
        is_hidden: false,
        is_executable: false,
        selected: false,
    }
}

#[test]
fn uu_encode_exact_text() {
    assert_eq!(uu_encode(b"Cat", "cat.txt"), "begin 644 cat.txt\n#0V%T\n`\nend\n");
    assert_eq!(uu_encode(b"", "empty"), "begin 644 empty\n`\nend\n");
}

#[test]
fn uu_roundtrip_scenarios() {
    let mut data: Vec<u8> = Vec::new();
    for i in 0..200u32 {
        data.push((i * 37 % 256) as u8);
    }
    let text = uu_encode(&data, "bin.dat");
    let lines: Vec<&str> = text.lines().collect();
    // 200 bytes: four full lines of 45 and one of 20.
    assert_eq!(lines.len(), 1 + 5 + 2);
    assert!(lines[1].starts_with('M'));
    assert_eq!(uu_decode(&text), Some(("bin.dat".to_string(), data)));
    assert_eq!(uu_decode(&uu_encode(b"x", "a b c")), Some(("a b c".to_string(), b"x".to_vec())));
}

#[test]
fn uu_decode_without_begin() {
    assert_eq!(uu_decode("hello\nworld\n"), None);
    assert_eq!(uu_decode(""), None);
}

#[test]
fn size_column_matches_float_formatting() {
    assert_eq!(entry("d", 0, true).formatted_size(), "<DIR>");
    assert_eq!(entry("f", 0, false).formatted_size(), "0");
    assert_eq!(entry("f", 1023, false).formatted_size(), "1023");
    assert_eq!(entry("f", 1024, false).formatted_size(), "1K");
    assert_eq!(entry("f", 1048575, false).formatted_size(), "1023K");
    let sizes: [u64; 10] = [
        1048576,
        1310720,
        1572864,
        1153433,
        1073741823,
        1073741824,
        1342177280,
        5000000000,
        u64::MAX,
        9007199254740993,
    ];
    for s in sizes {
        let expected = if s < 1024 * 1024 * 1024 {
            format!("{:.1}M", s as f64 / (1024.0 * 1024.0))
        } else {
            format!("{:.1}G", s as f64 / (1024.0 * 1024.0 * 1024.0))
        };
        assert_eq!(entry("f", s, false).formatted_size(), expected, "size {}", s);
    }
}

#[test]
fn date_column_shape() {
    let mut e = entry("f", 1, false);
    assert_eq!(e.formatted_date(), "");
    e.modified = Some(1_700_000_000_000_000_000);
    let d = e.formatted_date();
    let c: Vec<char> = d.chars().collect();
    assert_eq!(c.len(), 14);
    assert_eq!(c[2], '.');
    assert_eq!(c[5], '.');
    assert_eq!(c[8], ' ');
    assert_eq!(c[11], ':');
    for (i, ch) in c.iter().enumerate() {
        if i != 2 && i != 5 && i != 8 && i != 11 {
            assert!(ch.is_ascii_digit(), "digit expected in {:?}", d);
        }
    }
}

#[test]
fn entry_extension_and_name() {
    let e = entry("photo.JPG", 10, false);
    assert_eq!(e.extension(), "JPG");
    assert_eq!(e.display_name(), "photo.JPG");
    assert_eq!(entry("Makefile", 1, false).extension(), "");
}

#[test]
fn sort_mode_cycle_and_panels() {
    let mut m = SortMode::Name;
    let mut seen = Vec::new();
    for _ in 0..5 {
        seen.push(m.label().to_string());
        m = m.next();
    }
    assert_eq!(m, SortMode::Name);
    assert_eq!(seen, vec!["Name", "Ext", "Size", "Date", "Unsorted"]);
    assert_eq!(ActivePanel::Left.other(), ActivePanel::Right);
    assert_eq!(ActivePanel::Right.other(), ActivePanel::Left);
}

#[test]
fn chunk_names_and_paths() {
    assert_eq!(chunk_name("movie.avi", 1), "movie.avi.001");
    assert_eq!(chunk_name("x", 42), "x.042");
    assert_eq!(chunk_name("x", 1234), "x.1234");
    assert!(is_first_chunk("/tmp/movie.avi.001"));
    assert!(!is_first_chunk("/tmp/movie.avi.002"));
    assert!(!is_first_chunk("/tmp/movie"));
    assert_eq!(chunk_path("/tmp/movie.avi.001", 2), Some("/tmp/movie.avi.002".to_string()));
    assert_eq!(chunk_path("movie.avi.001", 3), Some("movie.avi.003".to_string()));
    assert_eq!(chunk_path("/", 1), None);
}

#[test]
fn split_sizes_cover_the_file() {
    assert_eq!(split_sizes(0, 10), Err("File is empty".to_string()));
    assert_eq!(split_sizes(25, 10), Ok(vec![10, 10, 5]));
    assert_eq!(split_sizes(20, 10), Ok(vec![10, 10]));
    assert_eq!(split_sizes(3, DEFAULT_CHUNK_SIZE), Ok(vec![3]));
    let v = split_sizes(3 * DEFAULT_CHUNK_SIZE + 7, DEFAULT_CHUNK_SIZE).unwrap();
    assert_eq!(v.iter().sum::<u64>(), 3 * DEFAULT_CHUNK_SIZE + 7);
}
