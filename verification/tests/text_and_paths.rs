use rdn::paths::{extension_of, file_name_of, file_stem_of, join_path, parent_of};
use rdn::text::{lex_less, replace_str, to_ascii_lower, to_lower, trim_char_str, trim_str};
use rdn::wildcard::wildcard_match;

#[test]
fn path_components_follow_std() {
    let cases = [
        "/home/user/file.txt",
        "/home/user/",
        "archive.tar.gz",
        ".bashrc",
        "/",
        "",
        "a/b/..",
        "dir//name.",
        "x/./y",
        "/usr",
        "a/b/.",
        "./y",
        "/./y",
        "./",
        ".",
        "a//./b",
        "x/../y",
        "..",
        "/a/b/",
    ];
    for c in cases {
        let p = std::path::Path::new(c);
        let name = p.file_name().map(|s| s.to_str().unwrap().to_string());
        let ext = p.extension().map(|s| s.to_str().unwrap().to_string());
        let stem = p.file_stem().map(|s| s.to_str().unwrap().to_string());
        let parent = p.parent().map(|s| s.to_str().unwrap().to_string());
        assert_eq!(file_name_of(c), name, "file name of {:?}", c);
        assert_eq!(extension_of(c), ext, "extension of {:?}", c);
        assert_eq!(file_stem_of(c), stem, "stem of {:?}", c);
        assert_eq!(parent_of(c), parent, "parent of {:?}", c);
    }
}

#[test]
fn joining_paths() {
    assert_eq!(join_path("/home", "user"), "/home/user");
    assert_eq!(join_path("/home/", "user"), "/home/user");
    assert_eq!(join_path("/home", "/etc"), "/etc");
    assert_eq!(join_path("", "x"), "x");
    assert_eq!(
        join_path("/a", "b"),
        std::path::Path::new("/a").join("b").to_str().unwrap()
    );
}

#[test]
fn wildcard_patterns() {
    assert!(wildcard_match("anything", "*"));
    assert!(wildcard_match("anything", "*.*"));
    assert!(wildcard_match("main.rs", "*.rs"));
    assert!(!wildcard_match("main.rc", "*.rs"));
    assert!(wildcard_match("file1.txt", "file?.txt"));
    assert!(!wildcard_match("file12.txt", "file?.txt"));
    assert!(wildcard_match("", ""));
    assert!(!wildcard_match("a", ""));
    assert!(wildcard_match("abc", "a*c"));
    assert!(wildcard_match("ac", "a*c"));
    assert!(!wildcard_match("ab", "a*c"));
}

#[test]
fn trimming_and_case() {
    assert_eq!(trim_str("  hello \t\n"), "hello");
    assert_eq!(trim_str("   "), "");
    assert_eq!(trim_char_str("\"quoted\"", '"'), "quoted");
    assert_eq!(trim_char_str("\"\"", '"'), "");
    assert_eq!(to_lower("HeLLo World"), "hello world");
    assert_eq!(to_lower("ÄÖÜ"), "äöü");
    assert_eq!(to_ascii_lower("ÄbC"), "Äbc");
}

#[test]
fn replacing_text() {
    assert_eq!(replace_str("a %f b %f", "%f", "x.txt"), "a x.txt b x.txt");
    assert_eq!(replace_str("none", "%f", "x"), "none");
    assert_eq!(replace_str("%f%f", "%f", ""), "");
}

#[test]
fn lexicographic_order() {
    let a: Vec<char> = "abc".chars().collect();
    let b: Vec<char> = "abd".chars().collect();
    let c: Vec<char> = "ab".chars().collect();
    assert!(lex_less(&a, &b));
    assert!(!lex_less(&b, &a));
    assert!(lex_less(&c, &a));
    assert!(!lex_less(&a, &a));
}
