use serve_directory::resolver::{locate, resolve, NotFound, Root, TargetKind};

fn names(list: &[&str]) -> Vec<String> {
    list.iter().map(|s| s.to_string()).collect()
}

#[test]
fn root_is_read_in_the_component_model() {
    let root = Root::new("/srv//www/./x/..").unwrap();
    assert_eq!(root.names(), &names(&["srv", "www"]));
    assert_eq!(root.path(), "/srv/www");
    assert!(Root::new("srv").is_none());
    assert!(Root::new("").is_none());
    assert_eq!(Root::new("/").unwrap().path(), "/");
}

#[test]
fn a_plain_request_stays_under_the_root() {
    let root = Root::new("/srv").unwrap();
    let target = locate(&root, "/docs/readme.md").unwrap();
    assert_eq!(target.relative(), &names(&["docs", "readme.md"]));
    assert_eq!(target.path(), "/srv/docs/readme.md");
    assert_eq!(target.kind(), TargetKind::Missing);
    assert!(!target.is_root());
    assert!(target.resolved_against(&root));
}

#[test]
fn traversal_out_of_the_root_is_not_found() {
    let root = Root::new("/srv").unwrap();
    assert_eq!(locate(&root, "/../../etc/passwd"), Err(NotFound));
    assert_eq!(locate(&root, "/.."), Err(NotFound));
    assert_eq!(locate(&root, "//etc/passwd"), Err(NotFound));
    assert_eq!(locate(&root, "etc"), Err(NotFound));
    assert_eq!(locate(&root, ""), Err(NotFound));
}

#[test]
fn traversal_that_comes_back_is_served() {
    let root = Root::new("/srv").unwrap();
    let target = locate(&root, "/a/../b/./c/").unwrap();
    assert_eq!(target.relative(), &names(&["b", "c"]));
    let back = locate(&root, "/../srv/x").unwrap();
    assert_eq!(back.relative(), &names(&["x"]));
    let absolute = locate(&root, "//srv/x").unwrap();
    assert_eq!(absolute.relative(), &names(&["x"]));
    assert!(locate(&root, "/").unwrap().is_root());
}

#[test]
fn resolve_asks_for_the_absolute_path() {
    let root = Root::new("/srv").unwrap();
    let file = resolve(&root, "/readme.md", |path: &str| {
        assert_eq!(path, "/srv/readme.md");
        Some(false)
    })
    .unwrap();
    assert_eq!(file.kind(), TargetKind::File);
    let dir = resolve(&root, "/empty/", |_: &str| Some(true)).unwrap();
    assert_eq!(dir.kind(), TargetKind::Directory);
    assert_eq!(dir.relative(), &names(&["empty"]));
}

#[test]
fn missing_entry_is_not_found() {
    let root = Root::new("/srv").unwrap();
    assert_eq!(resolve(&root, "/missing", |_: &str| None), Err(NotFound));
}

#[test]
fn escape_is_not_found_whatever_is_there() {
    let root = Root::new("/srv").unwrap();
    let r = resolve(&root, "/../../etc/passwd", |_: &str| -> Option<bool> {
        panic!("nothing outside the root is looked at")
    });
    assert_eq!(r, Err(NotFound));
}

#[test]
fn metadata_decides_the_classification() {
    assert_eq!(TargetKind::of(None), TargetKind::Missing);
    assert_eq!(TargetKind::of(Some(true)), TargetKind::Directory);
    assert_eq!(TargetKind::of(Some(false)), TargetKind::File);
}
