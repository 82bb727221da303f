//! The document responder: Markdown rendered to a page.

use vstd::prelude::*;
use crate::assets::BASE_STYLES;
use crate::markup::{
    attributes_markup, concat_all, container_attributes, container_children, element_markup,
    new_container, new_page, page_to_html_string, page_with_container, with_attribute, with_raw,
    with_style, ContainerKind,
};
use crate::resolver::{NotFound, ResolvedTarget};
use crate::route_utils::{shell, style_block};
use crate::routes::{responder_for, routes, Responder};

verus! {

/// The style block for rich text, layered over the stylesheet of the page
/// shell. Every rule is scoped to `.markdown-content`.
pub const MARKDOWN_STYLES: &'static str = "
.markdown-content {
    max-width: 800px;
    margin: 0 auto;
    padding: 2rem;
    line-height: 1.6;
    color: #333;
}

.markdown-content h1,
.markdown-content h2,
.markdown-content h3,
.markdown-content h4,
.markdown-content h5,
.markdown-content h6 {
    margin: 1.5em 0 0.5em 0;
    font-weight: bold;
}

.markdown-content h1 {
    font-size: 2em;
    border-bottom: 2px solid #eee;
    padding-bottom: 0.3em;
}

.markdown-content h2 {
    font-size: 1.5em;
    border-bottom: 1px solid #eee;
    padding-bottom: 0.2em;
}

.markdown-content p {
    margin: 1em 0;
}

.markdown-content pre {
    background: #f6f8fa;
    border-radius: 6px;
    padding: 16px;
    overflow: auto;
    font-family: 'Courier New', Courier, monospace;
}

.markdown-content code {
    background: #f6f8fa;
    padding: 0.2em 0.4em;
    border-radius: 3px;
    font-family: 'Courier New', Courier, monospace;
}

.markdown-content pre code {
    background: none;
    padding: 0;
}

.markdown-content blockquote {
    border-left: 4px solid #dfe2e5;
    padding-left: 16px;
    margin: 1em 0;
    color: #6a737d;
}

.markdown-content ul,
.markdown-content ol {
    margin: 1em 0;
    padding-left: 2em;
}

.markdown-content table {
    border-collapse: collapse;
    width: 100%;
    margin: 1em 0;
}

.markdown-content th,
.markdown-content td {
    border: 1px solid #dfe2e5;
    padding: 6px 13px;
    text-align: left;
}

.markdown-content th {
    background: #f6f8fa;
    font-weight: bold;
}

.markdown-content a {
    color: #0366d6;
    text-decoration: none;
}

.markdown-content a:hover {
    text-decoration: underline;
}
";

/// The HTML that `markdown::to_html` makes of a Markdown text.
pub uninterp spec fn markdown_html(text: Seq<char>) -> Seq<char>;

/// `markdown::to_html`: the text compiled to HTML as CommonMark says. What
/// comes out depends on the text alone.
#[verifier::external_body]
fn to_html(text: &str) -> (html: String)
    ensures
        html@ == markdown_html(text@),
{
    markdown::to_html(text)
}

/// The body of a document page: the rendered document in one container.
pub open spec fn document_body(html: Seq<char>) -> Seq<char> {
    element_markup(
        ContainerKind::Main.tag(),
        seq![("class"@, "border-box markdown-content"@)],
        seq![html],
    )
}

/// The page of a rendered document: the page shell, once, with the base
/// stylesheet and the rich text styles in its head, around the document.
pub open spec fn document_page(html: Seq<char>) -> Seq<char> {
    shell(style_block(BASE_STYLES@) + style_block(MARKDOWN_STYLES@), document_body(html))
}

/// What a document page holds before the document: the opening of the page
/// shell with both style blocks, and the opening tag of the container.
pub open spec fn document_prefix() -> Seq<char> {
    "<!DOCTYPE html><html>"@ + "<head>"@ + (style_block(BASE_STYLES@) + style_block(
        MARKDOWN_STYLES@,
    )) + "</head><body>"@ + seq!['<'] + ContainerKind::Main.tag() + attributes_markup(
        seq![("class"@, "border-box markdown-content"@)],
    ) + seq!['>']
}

/// What a document page holds behind the document: the closing tag of the
/// container and the closing of the page shell.
pub open spec fn document_suffix() -> Seq<char> {
    seq!['<', '/'] + ContainerKind::Main.tag() + seq!['>'] + "</body></html>"@
}

/// A rendered document stands in its page once and unchanged, between an
/// opening and a closing that do not depend on it.
pub proof fn lemma_document_is_nested_once(html: Seq<char>)
    ensures
        document_page(html) == document_prefix() + html + document_suffix(),
{
    let children = seq![html];
    assert(concat_all(children) == html) by {
        assert(children.drop_last() == Seq::<Seq<char>>::empty());
        assert(concat_all(children.drop_last()) == Seq::<char>::empty());
        assert(Seq::<char>::empty() + html == html);
    }
    assert(document_page(html) =~= document_prefix() + html + document_suffix());
}

/// The target is served by the document responder.
pub open spec fn is_document_target(target: &ResolvedTarget) -> bool {
    responder_for(target.classification(), target.name_segment()) == Some(Responder::Document)
}

/// The additional style block for rendered documents.
pub fn markdown_styles() -> (css: &'static str)
    ensures
        css@ == MARKDOWN_STYLES@,
{
    MARKDOWN_STYLES
}

/// The page around a document that is rendered already.
pub fn render_document(html: &str) -> (page: String)
    ensures
        page@ == document_page(html@),
{
    let frame = with_attribute(
        new_container(ContainerKind::Main),
        "class",
        "border-box markdown-content",
    );
    proof {
        assert(ContainerKind::Main.tag()[0] == 'm');
        assert(container_attributes(frame) == seq![("class"@, "border-box markdown-content"@)]);
    }
    let body = with_raw(frame, html);
    proof {
        assert(container_children(body) == seq![html@]);
    }
    let styled = with_style(with_style(new_page(), BASE_STYLES), markdown_styles());
    let page = page_with_container(styled, body);
    proof {
        assert(Seq::<char>::empty() + style_block(BASE_STYLES@) == style_block(BASE_STYLES@));
        assert(Seq::<char>::empty() + document_body(html@) == document_body(html@));
    }
    page_to_html_string(&page)
}

/// The page for a Markdown file. `content` is the text of the file, or
/// nothing where it could not be read. There is a page exactly where the
/// target is a file with the name of a document and its text was read.
pub fn handle_markdown_file(target: &ResolvedTarget, content: Option<&str>) -> (r: Result<
    String,
    NotFound,
>)
    ensures
        r is Ok <==> is_document_target(target) && content is Some,
        r is Ok ==> r.unwrap()@ == document_page(markdown_html(content.unwrap()@)),
{
    match routes(target) {
        Ok(Responder::Document) => match content {
            Some(text) => {
                let html = to_html(text);
                Ok(render_document(html.as_str()))
            },
            None => Err(NotFound),
        },
        _ => Err(NotFound),
    }
}

} // verus!
