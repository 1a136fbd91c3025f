use rdn::filefind::{Candidate, FindWalk};

fn entry(path: &str, is_dir: bool) -> Candidate {
    let name = path.rsplit('/').next().unwrap_or(path).to_string();
    Candidate { path: path.to_string(), name, size: 0, is_dir, lines: None }
}

fn names(v: &[Candidate]) -> Vec<String> {
    v.iter().map(|c| c.path.clone()).collect()
}

#[test]
fn deep_walk_is_depth_first() {
    let mut w = FindWalk::new(vec![entry("r/a", true), entry("r/b.txt", false), entry("r/c", true)], true);
    let mut asked = Vec::new();
    while !w.is_done() {
        if let Some(dir) = w.visit_next() {
            asked.push(dir.clone());
            let children = match dir.as_str() {
                "r/a" => vec![entry("r/a/x", false), entry("r/a/d", true)],
                "r/a/d" => vec![entry("r/a/d/y", false)],
                _ => vec![],
            };
            w.enter(children);
        }
    }
    assert_eq!(asked, vec!["r/a", "r/a/d", "r/c"]);
    assert_eq!(
        names(&w.into_visited()),
        vec!["r/a", "r/a/x", "r/a/d", "r/a/d/y", "r/b.txt", "r/c"]
    );
}

#[test]
fn shallow_walk_stays_in_the_root() {
    let mut w = FindWalk::new(vec![entry("r/a", true), entry("r/b", false)], false);
    assert_eq!(w.visit_next(), None);
    assert_eq!(w.visit_next(), None);
    assert!(w.is_done());
    assert_eq!(names(&w.into_visited()), vec!["r/a", "r/b"]);
}
