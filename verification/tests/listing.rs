use serve_directory::links::to_link;
use serve_directory::listing::{directory_listing, format_path, sort_by_name, Child, ListingEntry};
use serve_directory::resolver::{locate, NotFound, Root};

fn child(name: &str, is_dir: bool) -> Child {
    Child { name: Some(name.to_string()), is_dir: Some(is_dir) }
}

fn entry(link: &str, name: &str, is_dir: bool) -> ListingEntry {
    ListingEntry { link: link.to_string(), name: name.to_string(), is_dir }
}

#[test]
fn children_are_listed_by_name_behind_the_parent() {
    let root = Root::new("/srv").unwrap();
    let target = locate(&root, "/docs").unwrap();
    let children = vec![child("zeta.txt", false), child("alpha", true), child("Beta.md", false)];
    let listing = directory_listing(&root, &target, &children).unwrap();
    assert_eq!(
        listing,
        vec![
            entry("/", "..", true),
            entry("/docs/Beta.md", "Beta.md", false),
            entry("/docs/alpha", "alpha", true),
            entry("/docs/zeta.txt", "zeta.txt", false),
        ]
    );
}

#[test]
fn the_root_has_no_parent_entry() {
    let root = Root::new("/srv").unwrap();
    let target = locate(&root, "/").unwrap();
    let children = vec![child("b", false), child("a", false)];
    let listing = directory_listing(&root, &target, &children).unwrap();
    assert_eq!(listing, vec![entry("/a", "a", false), entry("/b", "b", false)]);
}

#[test]
fn an_empty_directory_lists_only_its_parent() {
    let root = Root::new("/srv").unwrap();
    let target = locate(&root, "/empty/").unwrap();
    let listing = directory_listing(&root, &target, &Vec::new()).unwrap();
    assert_eq!(listing, vec![entry("/", "..", true)]);
}

#[test]
fn the_parent_of_a_deep_directory_is_linked_from_the_root() {
    let root = Root::new("/srv/www").unwrap();
    let target = locate(&root, "/a/b/c").unwrap();
    let listing = directory_listing(&root, &target, &vec![child("x", true)]).unwrap();
    assert_eq!(listing, vec![entry("/a/b", "..", true), entry("/a/b/c/x", "x", true)]);
}

#[test]
fn children_without_name_or_kind_are_skipped() {
    let root = Root::new("/srv").unwrap();
    let target = locate(&root, "/").unwrap();
    let children = vec![
        Child { name: None, is_dir: Some(false) },
        child("kept", false),
        Child { name: Some("unknown".to_string()), is_dir: None },
        child("..", true),
        child(".", true),
        child("", false),
        child("a/b", false),
    ];
    let listing = directory_listing(&root, &target, &children).unwrap();
    assert_eq!(listing, vec![entry("/kept", "kept", false)]);
}

#[test]
fn a_target_of_another_root_has_no_listing() {
    let served = Root::new("/srv").unwrap();
    let other = Root::new("/home").unwrap();
    let target = locate(&other, "/docs").unwrap();
    assert_eq!(directory_listing(&served, &target, &Vec::new()), Err(NotFound));
}

#[test]
fn format_path_links_from_the_root() {
    let dir = vec!["a".to_string(), "b".to_string()];
    assert_eq!(format_path(&dir, &child("c.txt", false)), Some(entry("/a/b/c.txt", "c.txt", false)));
    assert_eq!(format_path(&Vec::new(), &child("top", true)), Some(entry("/top", "top", true)));
    assert_eq!(format_path(&dir, &child("..", true)), None);
    assert_eq!(format_path(&dir, &Child { name: None, is_dir: None }), None);
}

#[test]
fn links_are_written_for_a_url() {
    let dir = vec!["my docs".to_string()];
    assert_eq!(
        format_path(&dir, &child("a b.txt", false)),
        Some(entry("/my%20docs/a%20b.txt", "a b.txt", false))
    );
    assert_eq!(
        format_path(&Vec::new(), &child("caf\u{e9}", true)),
        Some(entry("/caf%C3%A9", "caf\u{e9}", true))
    );
    assert_eq!(
        format_path(&Vec::new(), &child("100%#?&<\">", false)),
        Some(entry("/100%25%23%3F%26%3C%22%3E", "100%#?&<\">", false))
    );
    assert_eq!(
        format_path(&Vec::new(), &child("Az09-._~", false)),
        Some(entry("/Az09-._~", "Az09-._~", false))
    );
    assert_eq!(
        format_path(&Vec::new(), &child("\u{1f600}\u{7f}\u{0}", false)),
        Some(entry("/%F0%9F%98%80%7F%00", "\u{1f600}\u{7f}\u{0}", false))
    );
    assert_eq!(to_link(&Vec::new()), "/");
    assert_eq!(to_link(&vec!["x y".to_string(), "z".to_string()]), "/x%20y/z");
}

#[test]
fn the_parent_link_is_written_for_a_url() {
    let root = Root::new("/srv").unwrap();
    let target = locate(&root, "/a b/c").unwrap();
    let listing = directory_listing(&root, &target, &Vec::new()).unwrap();
    assert_eq!(listing, vec![entry("/a%20b", "..", true)]);
}

#[test]
fn names_are_ordered_by_character() {
    let list = vec![
        entry("/b", "b", false),
        entry("/ab", "ab", false),
        entry("/a", "a", false),
        entry("/B", "B", false),
        entry("/%C3%A9", "\u{e9}", false),
        entry("/10", "10", false),
        entry("/9", "9", false),
    ];
    let sorted = sort_by_name(&list);
    let names: Vec<&str> = sorted.iter().map(|e| e.name.as_str()).collect();
    assert_eq!(names, vec!["10", "9", "B", "a", "ab", "b", "\u{e9}"]);
    let mut expected: Vec<String> = list.iter().map(|e| e.name.clone()).collect();
    expected.sort();
    assert_eq!(names, expected);
}

#[test]
fn entries_of_one_name_keep_their_order() {
    let list = vec![
        entry("/second", "same", true),
        entry("/first", "same", false),
        entry("/zero", "a", false),
    ];
    let sorted = sort_by_name(&list);
    assert_eq!(
        sorted,
        vec![entry("/zero", "a", false), entry("/second", "same", true), entry("/first", "same", false)]
    );
}

#[test]
fn sorting_twice_changes_nothing() {
    let list = vec![entry("/c", "c", false), entry("/a", "a", true), entry("/b", "b", false)];
    let once = sort_by_name(&list);
    assert_eq!(sort_by_name(&once), once);
}
