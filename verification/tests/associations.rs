use rdn::assoc::{association_command, find_description, load_associations, load_descriptions};

#[test]
fn associations_parse_and_skip() {
    let text = "# comment\n\n.TXT = less %f\nnoequals\n .Md=glow %d/%n \n";
    let a = load_associations(text);
    assert_eq!(a, vec![
        (".txt".to_string(), "less %f".to_string()),
        (".md".to_string(), "glow %d/%n".to_string()),
    ]);
}

#[test]
fn association_command_substitutes() {
    let a = load_associations(".md = glow %d/%n.md -- %f\n.md = other\n");
    let c = association_command(&a, "/home/u/Notes.MD", "Notes.MD", "/home/u");
    assert_eq!(c, Some("glow /home/u/Notes.md -- Notes.MD".to_string()));
}

#[test]
fn association_command_none_without_match() {
    let a = load_associations(".md = glow %f\n");
    assert_eq!(association_command(&a, "/home/u/readme", "readme", "/home/u"), None);
    assert_eq!(association_command(&a, "/home/u/a.txt", "a.txt", "/home/u"), None);
}

#[test]
fn association_for_files_without_extension() {
    let a = load_associations(" = cat %f\n");
    assert_eq!(
        association_command(&a, "/x/Makefile", "Makefile", "/x"),
        Some("cat Makefile".to_string())
    );
}

#[test]
fn descriptions_parse_and_look_up() {
    let d = load_descriptions("\"a b.txt\" first file \nnospace\nc.rs  code\nc.rs later\n");
    assert_eq!(d.len(), 3);
    assert_eq!(d[0], ("a".to_string(), "b.txt\" first file".to_string()));
    assert_eq!(find_description(&d, "c.rs"), Some("later".to_string()));
    assert_eq!(find_description(&d, "nospace"), None);
    assert_eq!(find_description(&d, "a"), Some("b.txt\" first file".to_string()));
}
