use servar::dispatch::{listing_dir, route, Action, TargetKind};
use servar::listing::{display_name, less_text, listing_items, sort_by_name, DirEntry, ListingItem};
use servar::page::{listing_page, listing_title, render_listing};

fn strings(parts: &[&str]) -> Vec<String> {
    parts.iter().map(|p| p.to_string()).collect()
}

fn entry(name: &str, is_dir: bool) -> DirEntry {
    DirEntry { name: name.to_string(), is_dir }
}

fn pairs(items: &[ListingItem]) -> Vec<(String, String)> {
    items.iter().map(|i| (i.name.clone(), i.link.clone())).collect()
}

#[test]
fn directories_get_a_trailing_slash() {
    assert_eq!(display_name(&"sub".to_string(), true), "sub/");
    assert_eq!(display_name(&"a.txt".to_string(), false), "a.txt");
}

#[test]
fn text_order_is_case_sensitive_and_lexicographic() {
    assert!(less_text(&"B".to_string(), &"a".to_string()));
    assert!(less_text(&"a".to_string(), &"ab".to_string()));
    assert!(!less_text(&"ab".to_string(), &"a".to_string()));
    assert!(!less_text(&"a".to_string(), &"a".to_string()));
    assert!(less_text(&"".to_string(), &"a".to_string()));
}

#[test]
fn sort_orders_by_shown_name() {
    let items = vec![
        ListingItem { name: "c".to_string(), link: "/c".to_string() },
        ListingItem { name: "a/".to_string(), link: "/a".to_string() },
        ListingItem { name: "a.txt".to_string(), link: "/a.txt".to_string() },
        ListingItem { name: "B".to_string(), link: "/B".to_string() },
    ];
    let sorted = sort_by_name(items);
    let names: Vec<String> = sorted.iter().map(|i| i.name.clone()).collect();
    assert_eq!(names, strings(&["B", "a.txt", "a/", "c"]));
}

#[test]
fn sort_of_nothing_is_nothing() {
    assert!(sort_by_name(Vec::new()).is_empty());
}

#[test]
fn trailing_slash_takes_part_in_the_order() {
    // "a-b" < "a/" because '-' < '/', though the raw name "a" < "a-b".
    let entries = vec![entry("a", true), entry("a-b", false)];
    let items = listing_items(&strings(&[]), &entries);
    assert_eq!(
        pairs(&items),
        vec![("a-b".to_string(), "/a-b".to_string()), ("a/".to_string(), "/a".to_string())]
    );
}

#[test]
fn root_listing_has_no_parent_line() {
    let entries = vec![entry("sub", true), entry("a.txt", false)];
    let items = listing_items(&strings(&[]), &entries);
    assert_eq!(
        pairs(&items),
        vec![
            ("a.txt".to_string(), "/a.txt".to_string()),
            ("sub/".to_string(), "/sub".to_string()),
        ]
    );
}

#[test]
fn sub_listing_starts_with_parent_line() {
    let entries = vec![entry("x.txt", false)];
    let items = listing_items(&strings(&["sub", "deep"]), &entries);
    assert_eq!(
        pairs(&items),
        vec![
            ("..".to_string(), "/sub".to_string()),
            ("x.txt".to_string(), "/sub/deep/x.txt".to_string()),
        ]
    );
}

#[test]
fn empty_directory_lists_only_parent() {
    let items = listing_items(&strings(&["sub"]), &Vec::new());
    assert_eq!(pairs(&items), vec![("..".to_string(), "/".to_string())]);
    assert!(listing_items(&strings(&[]), &Vec::new()).is_empty());
}

#[test]
fn title_names_the_directory_url() {
    assert_eq!(listing_title(&strings(&[])), "Directory listing for /");
    assert_eq!(listing_title(&strings(&["sub"])), "Directory listing for /sub");
}

#[test]
fn page_holds_title_and_links_in_order() {
    let items = vec![
        ListingItem { name: "..".to_string(), link: "/".to_string() },
        ListingItem { name: "x.txt".to_string(), link: "/sub/x.txt".to_string() },
    ];
    let html = render_listing(&strings(&["sub"]), &items);
    assert_eq!(
        html,
        "<!DOCTYPE html><html><head><title>Directory listing for /sub</title></head><body><main><h1>Directory listing for /sub</h1><hr><ul><li><a href=\"/\">..</a></li><li><a href=\"/sub/x.txt\">x.txt</a></li></ul><hr></main></body></html>"
    );
}

#[test]
fn page_of_empty_root_has_an_empty_list() {
    let html = listing_page(&strings(&[]), &Vec::new());
    assert_eq!(
        html,
        "<!DOCTYPE html><html><head><title>Directory listing for /</title></head><body><main><h1>Directory listing for /</h1><hr><ul/><hr></main></body></html>"
    );
}

#[test]
fn escaping_request_is_not_found_whatever_lies_there() {
    let root = strings(&["srv"]);
    for kind in [TargetKind::RegularFile, TargetKind::Directory, TargetKind::Absent] {
        assert_eq!(route(&root, "/sub/../../etc/passwd", kind), Action::NotFound);
        assert_eq!(route(&root, "/../srv/../etc", kind), Action::NotFound);
    }
    assert_eq!(listing_dir(&root, "/../etc"), None);
}

#[test]
fn scenario_srv_with_file_and_subdirectory() {
    let root = strings(&["srv"]);

    // GET / : a listing, no parent line.
    assert_eq!(route(&root, "/", TargetKind::Directory), Action::SendListing);
    let rel = listing_dir(&root, "/").unwrap();
    assert!(rel.is_empty());
    let top = vec![entry("a.txt", false), entry("sub", true)];
    let items = listing_items(&rel, &top);
    assert_eq!(
        pairs(&items),
        vec![
            ("a.txt".to_string(), "/a.txt".to_string()),
            ("sub/".to_string(), "/sub".to_string()),
        ]
    );
    assert!(items.iter().all(|i| i.name != ".."));
    let html = listing_page(&rel, &top);
    assert!(html.contains("Directory listing for /"));
    assert!(!html.contains(">..<"));

    // GET /a.txt : the file itself.
    assert_eq!(route(&root, "/a.txt", TargetKind::RegularFile), Action::SendFile);

    // GET /sub/ : parent line, then x.txt.
    assert_eq!(route(&root, "/sub/", TargetKind::Directory), Action::SendListing);
    let rel = listing_dir(&root, "/sub/").unwrap();
    assert_eq!(rel, strings(&["sub"]));
    let items = listing_items(&rel, &vec![entry("x.txt", false)]);
    assert_eq!(
        pairs(&items),
        vec![
            ("..".to_string(), "/".to_string()),
            ("x.txt".to_string(), "/sub/x.txt".to_string()),
        ]
    );

    // GET /sub/../../etc/passwd : 404.
    assert_eq!(route(&root, "/sub/../../etc/passwd", TargetKind::RegularFile), Action::NotFound);

    // GET /missing : 404.
    assert_eq!(route(&root, "/missing", TargetKind::Absent), Action::NotFound);
}
