use rdn::envlist::EnvList;

fn var(n: &str, v: &str) -> (String, String) {
    (n.to_string(), v.to_string())
}

#[test]
fn variables_sorted_by_name_ignoring_case() {
    let l = EnvList::new(vec![var("PATH", "/bin"), var("home", "/h"), var("EDITOR", "vi"), var("Home", "/x")]);
    let names: Vec<&str> = l.vars.iter().map(|(n, _)| n.as_str()).collect();
    assert_eq!(names, vec!["EDITOR", "home", "Home", "PATH"]);
    assert_eq!(l.cursor, 0);
}

#[test]
fn cursor_moves_within_the_list() {
    let vars: Vec<(String, String)> = (0..30).map(|i| var(&format!("V{:02}", i), "x")).collect();
    let mut l = EnvList::new(vars);
    l.cursor_up();
    assert_eq!(l.cursor, 0);
    l.page_down();
    assert_eq!(l.cursor, 20);
    l.page_down();
    assert_eq!(l.cursor, 29);
    l.cursor_down();
    assert_eq!(l.cursor, 29);
    l.page_up();
    assert_eq!(l.cursor, 9);
    l.page_up();
    assert_eq!(l.cursor, 0);
    l.cursor_end();
    assert_eq!(l.cursor, 29);
    l.cursor_home();
    assert_eq!(l.cursor, 0);
    let mut empty = EnvList::new(Vec::new());
    empty.page_down();
    assert_eq!(empty.cursor, 0);
}
