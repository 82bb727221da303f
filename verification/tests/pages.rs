use serve_directory::assets::{BASE_STYLES, FILE_ICON, FOLDER_ICON};
use serve_directory::handlers::markdown::{
    handle_markdown_file, markdown_styles, render_document, MARKDOWN_STYLES,
};
use serve_directory::listing::{Child, ListingEntry};
use serve_directory::resolver::{locate, resolve, NotFound, Root, TargetKind};
use serve_directory::route_utils::{link_text_for, path_to_html, render_listing};

fn count(text: &str, part: &str) -> usize {
    text.matches(part).count()
}

fn listing_shell(body: &str) -> String {
    format!(
        "<!DOCTYPE html><html><head><style>{}</style></head><body>{}</body></html>",
        BASE_STYLES, body
    )
}

fn document_shell(body: &str) -> String {
    format!(
        "<!DOCTYPE html><html><head><style>{}</style><style>{}</style></head><body>{}</body></html>",
        BASE_STYLES, MARKDOWN_STYLES, body
    )
}

#[test]
fn listing_page_is_written_out_in_full() {
    let list = vec![
        ListingEntry { link: "/".to_string(), name: "..".to_string(), is_dir: true },
        ListingEntry { link: "/docs/a".to_string(), name: "a".to_string(), is_dir: true },
        ListingEntry { link: "/docs/b.txt".to_string(), name: "b.txt".to_string(), is_dir: false },
    ];
    let page = render_listing("/docs", &list);
    let body = format!(
        "<main class=\"border-box\"><pre id=\"header\">/docs</pre><div id=\"wrapper\">\
         <a href=\"/\" class=\"content\">..</a>\
         <a href=\"/docs/a\" class=\"content\">{}<p class=\"text\">a</p></a>\
         <a href=\"/docs/b.txt\" class=\"content\">{}<p class=\"text\">b.txt</p></a>\
         </div></main>",
        FOLDER_ICON, FILE_ICON
    );
    assert_eq!(page, listing_shell(&body));
}

#[test]
fn listing_without_entries_closes_its_container_at_once() {
    let page = render_listing("/", &Vec::new());
    let body = "<main class=\"border-box\"><pre id=\"header\">/</pre><div id=\"wrapper\"/></main>";
    assert_eq!(page, listing_shell(body));
}

#[test]
fn request_path_is_escaped_in_the_header() {
    let page = render_listing("/<b>&\"it's\"", &Vec::new());
    assert!(page.contains("<pre id=\"header\">/&lt;b&gt;&amp;&quot;it&#39;s&quot;</pre>"));
    assert!(!page.contains("<b>"));
}

#[test]
fn link_text_shows_icon_and_name() {
    let dir = ListingEntry { link: "/d".to_string(), name: "d".to_string(), is_dir: true };
    let file = ListingEntry { link: "/f".to_string(), name: "f".to_string(), is_dir: false };
    let up = ListingEntry { link: "/".to_string(), name: "..".to_string(), is_dir: true };
    assert_eq!(link_text_for(&dir), format!("{}<p class=\"text\">d</p>", FOLDER_ICON));
    assert_eq!(link_text_for(&file), format!("{}<p class=\"text\">f</p>", FILE_ICON));
    assert_eq!(link_text_for(&up), "..");
}

#[test]
fn names_are_escaped_where_they_are_shown() {
    let root = Root::new("/srv").unwrap();
    let target = resolve(&root, "/", |_: &str| Some(true)).unwrap();
    let children = vec![Child { name: Some("<b>&'\"".to_string()), is_dir: Some(false) }];
    let page = path_to_html(&root, "/", &target, Some(&children)).unwrap();
    let link = format!(
        "<a href=\"/%3Cb%3E%26%27%22\" class=\"content\">{}<p class=\"text\">&lt;b&gt;&amp;&#39;&quot;</p></a>",
        FILE_ICON
    );
    let body = format!(
        "<main class=\"border-box\"><pre id=\"header\">/</pre><div id=\"wrapper\">{}</div></main>",
        link
    );
    assert_eq!(page, listing_shell(&body));
}

#[test]
fn empty_directory_page_holds_only_the_parent_link() {
    let root = Root::new("/srv").unwrap();
    let target = resolve(&root, "/empty/", |_: &str| Some(true)).unwrap();
    let children: Vec<Child> = Vec::new();
    let page = path_to_html(&root, "/empty/", &target, Some(&children)).unwrap();
    let body = "<main class=\"border-box\"><pre id=\"header\">/empty/</pre><div id=\"wrapper\">\
                <a href=\"/\" class=\"content\">..</a></div></main>";
    assert_eq!(page, listing_shell(body));
    assert_eq!(count(&page, "<a "), 1);
}

#[test]
fn directory_page_lists_children_in_ascending_order() {
    let root = Root::new("/srv").unwrap();
    let target = resolve(&root, "/pub", |_: &str| Some(true)).unwrap();
    let children = vec![
        Child { name: Some("c".to_string()), is_dir: Some(false) },
        Child { name: Some("a".to_string()), is_dir: Some(true) },
        Child { name: Some("b".to_string()), is_dir: Some(false) },
    ];
    let page = path_to_html(&root, "/pub", &target, Some(&children)).unwrap();
    let up = page.find("href=\"/\"").unwrap();
    let a = page.find("href=\"/pub/a\"").unwrap();
    let b = page.find("href=\"/pub/b\"").unwrap();
    let c = page.find("href=\"/pub/c\"").unwrap();
    assert!(up < a && a < b && b < c);
    assert_eq!(count(&page, "<a "), 4);
}

#[test]
fn directory_that_cannot_be_enumerated_is_not_found() {
    let root = Root::new("/srv").unwrap();
    let target = resolve(&root, "/locked", |_: &str| Some(true)).unwrap();
    assert_eq!(path_to_html(&root, "/locked", &target, None), Err(NotFound));
}

#[test]
fn same_request_gives_the_same_page() {
    let root = Root::new("/srv").unwrap();
    let children = vec![
        Child { name: Some("x".to_string()), is_dir: Some(false) },
        Child { name: Some("y".to_string()), is_dir: Some(true) },
    ];
    let first = {
        let target = resolve(&root, "/d", |_: &str| Some(true)).unwrap();
        path_to_html(&root, "/d", &target, Some(&children))
    };
    let second = {
        let target = resolve(&root, "/d", |_: &str| Some(true)).unwrap();
        path_to_html(&root, "/d", &target, Some(&children))
    };
    assert_eq!(first, second);
    let file = locate(&root, "/n.md").unwrap().classify(TargetKind::File).unwrap();
    assert_eq!(
        handle_markdown_file(&file, Some("*same*")),
        handle_markdown_file(&file, Some("*same*"))
    );
}

#[test]
fn readme_is_rendered_inside_the_shell() {
    let root = Root::new("/srv").unwrap();
    let target = resolve(&root, "/readme.md", |path: &str| {
        assert_eq!(path, "/srv/readme.md");
        Some(false)
    })
    .unwrap();
    let page = handle_markdown_file(&target, Some("# Hi")).unwrap();
    assert_eq!(
        page,
        document_shell("<main class=\"border-box markdown-content\"><h1>Hi</h1></main>")
    );
    assert!(page.contains("<h1>Hi</h1>"));
    assert!(page.contains(BASE_STYLES));
    assert!(page.contains(markdown_styles()));
    assert_eq!(count(&page, "<style>"), 2);
}

#[test]
fn heading_code_and_link_are_rendered_in_one_shell() {
    let root = Root::new("/srv").unwrap();
    let target = locate(&root, "/notes.markdown").unwrap().classify(TargetKind::File).unwrap();
    let text = "# Title\n\n```\nlet x = 1;\n```\n\n[site](https://example.org)\n";
    let page = handle_markdown_file(&target, Some(text)).unwrap();
    assert!(page.contains("<h1>Title</h1>"));
    assert!(page.contains("<pre><code>let x = 1;\n</code></pre>"));
    assert!(page.contains("<a href=\"https://example.org\">site</a>"));
    assert_eq!(count(&page, "<!DOCTYPE html>"), 1);
    assert_eq!(count(&page, "<html>"), 1);
    assert_eq!(count(&page, "<head>"), 1);
    assert_eq!(count(&page, "<body>"), 1);
    assert_eq!(count(&page, "</html>"), 1);
    let open = page.find("<main class=\"border-box markdown-content\">").unwrap();
    let heading = page.find("<h1>Title</h1>").unwrap();
    let close = page.find("</main>").unwrap();
    assert!(open < heading && heading < close);
}

#[test]
fn rendered_document_is_put_into_the_page_as_it_is() {
    let page = render_document("<p>ready &amp; done</p>");
    assert_eq!(
        page,
        document_shell("<main class=\"border-box markdown-content\"><p>ready &amp; done</p></main>")
    );
    let empty = render_document("");
    assert_eq!(empty, document_shell("<main class=\"border-box markdown-content\"></main>"));
}

#[test]
fn only_readable_document_files_are_rendered() {
    let root = Root::new("/srv").unwrap();
    let doc = || locate(&root, "/a.md").unwrap();
    assert_eq!(handle_markdown_file(&doc().classify(TargetKind::File).unwrap(), None), Err(NotFound));
    assert_eq!(
        handle_markdown_file(&doc().classify(TargetKind::Directory).unwrap(), Some("x")),
        Err(NotFound)
    );
    assert_eq!(handle_markdown_file(&doc(), Some("x")), Err(NotFound));
    let plain = locate(&root, "/a.txt").unwrap().classify(TargetKind::File).unwrap();
    assert_eq!(handle_markdown_file(&plain, Some("x")), Err(NotFound));
    let upper = locate(&root, "/a.MD").unwrap().classify(TargetKind::File).unwrap();
    assert_eq!(handle_markdown_file(&upper, Some("x")), Err(NotFound));
}
