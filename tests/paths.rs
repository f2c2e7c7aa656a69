use servar::paths::{components, relative_to, resolve, split_path, url_of, walk_from};

fn strings(parts: &[&str]) -> Vec<String> {
    parts.iter().map(|p| p.to_string()).collect()
}

#[test]
fn split_keeps_empty_pieces() {
    assert_eq!(split_path("/a//b/"), strings(&["", "a", "", "b", ""]));
    assert_eq!(split_path(""), strings(&[""]));
    assert_eq!(split_path("/"), strings(&["", ""]));
}

#[test]
fn components_resolve_dots() {
    assert_eq!(components("/srv/./www/../data/"), strings(&["srv", "data"]));
    assert_eq!(components("/"), strings(&[]));
    assert_eq!(components("/../.."), strings(&[]));
}

#[test]
fn walk_goes_up_and_down() {
    let cur = strings(&["srv", "www"]);
    assert_eq!(walk_from(cur, &strings(&["..", "x", ".", "y"])), strings(&["srv", "x", "y"]));
}

#[test]
fn relative_to_strips_the_root() {
    let root = strings(&["srv"]);
    assert_eq!(relative_to(&root, &strings(&["srv", "sub", "x.txt"])), Some(strings(&["sub", "x.txt"])));
    assert_eq!(relative_to(&root, &strings(&["srv"])), Some(strings(&[])));
    assert_eq!(relative_to(&root, &strings(&["etc", "passwd"])), None);
    assert_eq!(relative_to(&root, &strings(&[])), None);
}

#[test]
fn relative_to_compares_whole_components() {
    let root = strings(&["srv"]);
    assert_eq!(relative_to(&root, &strings(&["srvx", "a"])), None);
}

#[test]
fn resolve_keeps_requests_inside_the_root() {
    let root = strings(&["srv"]);
    assert_eq!(resolve(&root, "/sub/x.txt"), Some(strings(&["srv", "sub", "x.txt"])));
    assert_eq!(resolve(&root, "/sub/../a.txt"), Some(strings(&["srv", "a.txt"])));
    assert_eq!(resolve(&root, "/sub/../../etc/passwd"), None);
    assert_eq!(resolve(&root, "/.."), None);
    assert_eq!(resolve(&root, "/"), Some(strings(&["srv"])));
}

#[test]
fn urls_are_rooted_at_slash() {
    assert_eq!(url_of(&strings(&[])), "/");
    assert_eq!(url_of(&strings(&["sub"])), "/sub");
    assert_eq!(url_of(&strings(&["sub", "x.txt"])), "/sub/x.txt");
}

#[test]
fn url_maps_back_to_the_same_path() {
    let root = strings(&["srv", "www"]);
    let rel = strings(&["docs", "a b.txt"]);
    let url = url_of(&rel);
    assert_eq!(resolve(&root, &url), Some(strings(&["srv", "www", "docs", "a b.txt"])));
}
