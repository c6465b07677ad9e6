use btrust::pattern::build_regex;

fn owned(v: &[&str]) -> Vec<String> {
    v.iter().map(|s| s.to_string()).collect()
}

#[test]
fn wildcard_selects_everything() {
    assert_eq!(build_regex(&owned(&["*"])), "^/.*$");
}

#[test]
fn dot_star_anchors_to_the_same_pattern() {
    assert_eq!(build_regex(&owned(&[".*"])), "^/.*$");
}

#[test]
fn paths_become_anchored_alternatives() {
    let r = build_regex(&owned(&["/etc/passwd", "home/user/notes.txt", "///var/log"]));
    assert_eq!(r, "^/etc/passwd$|^/home/user/notes.txt$|^/var/log$");
    assert_eq!(r.split('|').count(), 3);
    for b in r.split('|') {
        assert!(b.starts_with("^/") && b.ends_with('$'));
    }
}

#[test]
fn single_path_has_one_branch() {
    assert_eq!(build_regex(&owned(&["/a"])), "^/a$");
}

#[test]
fn wildcard_among_others_is_a_plain_path() {
    assert_eq!(build_regex(&owned(&["*", "/b"])), "^/*$|^/b$");
}

#[test]
fn no_paths_give_an_empty_pattern() {
    assert_eq!(build_regex(&[]), "");
}

#[test]
fn non_ascii_paths_are_kept() {
    assert_eq!(build_regex(&owned(&["/données/été"])), "^/données/été$");
}
