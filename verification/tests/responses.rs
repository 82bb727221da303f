use serve_directory::assets::BASE_STYLES;
use serve_directory::handlers::markdown::MARKDOWN_STYLES;
use serve_directory::listing::Child;
use serve_directory::resolver::{locate, NotFound, Root, TargetKind};
use serve_directory::responses::{render_file, respond, status, Response, Seen};

fn file(text: Option<&str>) -> Seen {
    Seen { kind: TargetKind::File, text: text.map(String::from), children: None }
}

fn directory(children: Option<Vec<Child>>) -> Seen {
    Seen { kind: TargetKind::Directory, text: None, children }
}

fn nothing() -> Seen {
    Seen { kind: TargetKind::Missing, text: None, children: None }
}

fn body(response: &Result<Response, NotFound>) -> &str {
    match response {
        Ok(Response::Page(page)) => page,
        other => panic!("no page: {:?}", other),
    }
}

#[test]
fn get_readme_renders_the_document() {
    let root = Root::new("/srv").unwrap();
    let response = respond(&root, "/readme.md", &file(Some("# Hi")));
    assert_eq!(status(&response), 200);
    let page = body(&response);
    assert!(page.contains("<h1>Hi</h1>"));
    assert!(page.starts_with("<!DOCTYPE html><html><head>"));
    assert!(page.ends_with("</body></html>"));
    assert!(page.contains(&format!("<style>{}</style>", BASE_STYLES)));
    assert!(page.contains(&format!("<style>{}</style>", MARKDOWN_STYLES)));
}

#[test]
fn get_empty_directory_lists_only_the_parent() {
    let root = Root::new("/srv").unwrap();
    let response = respond(&root, "/empty/", &directory(Some(Vec::new())));
    assert_eq!(status(&response), 200);
    let page = body(&response);
    assert_eq!(page.matches("<a ").count(), 1);
    assert!(page.contains("<a href=\"/\" class=\"content\">..</a>"));
    assert!(page.contains("<pre id=\"header\">/empty/</pre>"));
}

#[test]
fn get_traversal_is_not_found() {
    let root = Root::new("/srv").unwrap();
    let response = respond(&root, "/../../etc/passwd", &file(Some("root:x:0:0")));
    assert_eq!(response, Err(NotFound));
    assert_eq!(status(&response), 404);
}

#[test]
fn get_missing_is_not_found() {
    let root = Root::new("/srv").unwrap();
    let response = respond(&root, "/missing", &nothing());
    assert_eq!(response, Err(NotFound));
    assert_eq!(status(&response), 404);
}

#[test]
fn ordinary_file_is_streamed_from_its_path() {
    let root = Root::new("/srv").unwrap();
    let response = respond(&root, "/img/./logo.png", &file(None));
    assert_eq!(response, Ok(Response::File("/srv/img/logo.png".to_string())));
    assert_eq!(status(&response), 200);
}

#[test]
fn document_is_rendered_and_never_streamed() {
    let root = Root::new("/srv").unwrap();
    let rendered = respond(&root, "/notes.markdown", &file(Some("text")));
    assert!(body(&rendered).contains("<p>text</p>"));
    let unreadable = respond(&root, "/notes.markdown", &file(None));
    assert_eq!(unreadable, Err(NotFound));
}

#[test]
fn directory_named_like_a_document_is_listed() {
    let root = Root::new("/srv").unwrap();
    let children = vec![Child { name: Some("inner".to_string()), is_dir: Some(false) }];
    let response = respond(&root, "/notes.md", &directory(Some(children)));
    assert!(body(&response).contains("href=\"/notes.md/inner\""));
}

#[test]
fn directory_that_cannot_be_enumerated_answers_not_found() {
    let root = Root::new("/srv").unwrap();
    assert_eq!(respond(&root, "/locked", &directory(None)), Err(NotFound));
}

#[test]
fn root_listing_has_no_parent_link() {
    let root = Root::new("/srv").unwrap();
    let children = vec![Child { name: Some("a".to_string()), is_dir: Some(true) }];
    let response = respond(&root, "/", &directory(Some(children)));
    let page = body(&response);
    assert!(!page.contains(">..</a>"));
    assert_eq!(page.matches("<a ").count(), 1);
    let same = respond(&root, "/x/..", &directory(Some(vec![Child {
        name: Some("a".to_string()),
        is_dir: Some(true),
    }])));
    assert!(!body(&same).contains(">..</a>"));
}

#[test]
fn the_same_request_is_answered_the_same_twice() {
    let root = Root::new("/srv").unwrap();
    let children = vec![
        Child { name: Some("b".to_string()), is_dir: Some(false) },
        Child { name: Some("a".to_string()), is_dir: Some(true) },
    ];
    let seen = directory(Some(children));
    assert_eq!(respond(&root, "/d", &seen), respond(&root, "/d", &seen));
    let text = file(Some("# Twice\n\n[a](b)"));
    assert_eq!(respond(&root, "/t.md", &text), respond(&root, "/t.md", &text));
}

#[test]
fn file_responder_reads_only_documents() {
    let root = Root::new("/srv").unwrap();
    let at = |request: &str, kind: TargetKind| locate(&root, request).unwrap().classify(kind).unwrap();
    let page = render_file(&at("/a.md", TargetKind::File), Some("*a*")).unwrap();
    assert!(matches!(&page, Response::Page(text) if text.contains("<em>a</em>")));
    assert_eq!(render_file(&at("/a.md", TargetKind::File), None), Err(NotFound));
    assert_eq!(
        render_file(&at("/a.txt", TargetKind::File), Some("*a*")),
        Ok(Response::File("/srv/a.txt".to_string()))
    );
    assert_eq!(
        render_file(&at("/a.txt", TargetKind::File), None),
        Ok(Response::File("/srv/a.txt".to_string()))
    );
    assert_eq!(render_file(&at("/a.md", TargetKind::Directory), Some("x")), Err(NotFound));
    assert_eq!(render_file(&locate(&root, "/a.md").unwrap(), Some("x")), Err(NotFound));
}
