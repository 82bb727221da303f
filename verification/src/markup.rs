//! The boundary to `build_html`: the two builder types the renderers use,
//! what they hold, and what each builder call does to it.
//!
//! Everything in this module is taken on trust from the source of `build_html`;
//! the renderers are proved against the contracts stated here.

use vstd::prelude::*;
use build_html::{Container, ContainerType, Html, HtmlContainer, HtmlPage};

verus! {

/// `build_html::Container`: an element that holds other elements. Nothing of
/// its inside is known here but what the three names below say.
#[verifier::external_type_specification]
#[verifier::external_body]
pub struct ExContainer(Container);

/// `build_html::HtmlPage`: a whole page. Nothing of its inside is known here
/// but what the three names below say.
#[verifier::external_type_specification]
#[verifier::external_body]
pub struct ExHtmlPage(HtmlPage);

/// One attribute of an element: its key and its value.
pub type Attribute = (Seq<char>, Seq<char>);

/// The tag name of a container, as it is printed.
pub uninterp spec fn container_tag(c: Container) -> Seq<char>;

/// The attributes of a container, in the order in which they were added.
pub uninterp spec fn container_attributes(c: Container) -> Seq<Attribute>;

/// The children of a container, each already printed, in the order in which
/// they were added.
pub uninterp spec fn container_children(c: Container) -> Seq<Seq<char>>;

/// What a page prints before its head: the doctype and the opening `html` tag.
pub uninterp spec fn page_opening(p: HtmlPage) -> Seq<char>;

/// What a page holds between `<head>` and `</head>`.
pub uninterp spec fn page_head(p: HtmlPage) -> Seq<char>;

/// What a page holds between `<body>` and `</body>`.
pub uninterp spec fn page_body(p: HtmlPage) -> Seq<char>;

/// The attributes of an opening tag: each one as a space, the key, `="`, the
/// value and `"`.
pub open spec fn attributes_markup(attributes: Seq<Attribute>) -> Seq<char>
    decreases attributes.len(),
{
    if attributes.len() == 0 {
        Seq::empty()
    } else {
        attributes_markup(attributes.drop_last()) + seq![' '] + attributes.last().0 + seq![
            '=',
            '"',
        ] + attributes.last().1 + seq!['"']
    }
}

/// The parts one after another.
pub open spec fn concat_all(parts: Seq<Seq<char>>) -> Seq<char>
    decreases parts.len(),
{
    if parts.len() == 0 {
        Seq::empty()
    } else {
        concat_all(parts.drop_last()) + parts.last()
    }
}

/// An element as `build_html` prints it: self-closing when it has no child,
/// else the children between an opening and a closing tag.
pub open spec fn element_markup(
    tag: Seq<char>,
    attributes: Seq<Attribute>,
    children: Seq<Seq<char>>,
) -> Seq<char> {
    if children.len() == 0 {
        seq!['<'] + tag + attributes_markup(attributes) + seq!['/', '>']
    } else {
        seq!['<'] + tag + attributes_markup(attributes) + seq!['>'] + concat_all(children) + seq![
            '<',
            '/',
        ] + tag + seq!['>']
    }
}

/// A container as it is printed.
pub open spec fn container_markup(c: Container) -> Seq<char> {
    element_markup(container_tag(c), container_attributes(c), container_children(c))
}

/// A page as it is printed.
pub open spec fn page_markup(opening: Seq<char>, head: Seq<char>, body: Seq<char>) -> Seq<char> {
    opening + "<head>"@ + head + "</head><body>"@ + body + "</body></html>"@
}

/// The tags of the two list containers, which wrap each child in a list item.
pub open spec fn is_list_tag(tag: Seq<char>) -> bool {
    tag == seq!['o', 'l'] || tag == seq!['u', 'l']
}

/// What stands for one character in escaped text.
pub open spec fn escaped_char(c: char) -> Seq<char> {
    if c == '"' {
        seq!['&', 'q', 'u', 'o', 't', ';']
    } else if c == '\'' {
        seq!['&', '#', '3', '9', ';']
    } else if c == '&' {
        seq!['&', 'a', 'm', 'p', ';']
    } else if c == '<' {
        seq!['&', 'l', 't', ';']
    } else if c == '>' {
        seq!['&', 'g', 't', ';']
    } else {
        seq![c]
    }
}

/// Text with the five special characters of HTML replaced by their entities.
pub open spec fn escaped(text: Seq<char>) -> Seq<char>
    decreases text.len(),
{
    if text.len() == 0 {
        Seq::empty()
    } else {
        escaped(text.drop_last()) + escaped_char(text.last())
    }
}

/// The two containers the renderers build.
#[derive(Clone, Copy, Debug, PartialEq, Eq)]
pub enum ContainerKind {
    Main,
    Div,
}

impl ContainerKind {
    /// The tag name that `build_html` prints for this kind.
    pub open spec fn tag(self) -> Seq<char> {
        match self {
            ContainerKind::Main => seq!['m', 'a', 'i', 'n'],
            ContainerKind::Div => seq!['d', 'i', 'v'],
        }
    }
}

/// `build_html::escape_html`: every `"`, `'`, `&`, `<` and `>` of the text
/// becomes its entity, every other character stays.
#[verifier::external_body]
pub(crate) fn escape_html(text: &str) -> (out: String)
    ensures
        out@ == escaped(text@),
{
    build_html::escape_html(text)
}

/// `Container::new`: an element with the tag of `kind`, no attribute and no
/// child.
#[verifier::external_body]
pub(crate) fn new_container(kind: ContainerKind) -> (c: Container)
    ensures
        container_tag(c) == kind.tag(),
        container_attributes(c) == Seq::<Attribute>::empty(),
        container_children(c) == Seq::<Seq<char>>::empty(),
{
    Container::new(
        match kind {
            ContainerKind::Main => ContainerType::Main,
            ContainerKind::Div => ContainerType::Div,
        },
    )
}

/// `Container::with_attributes`, called with one pair: the pair is added
/// behind the attributes that the container has. (The method adds to the
/// attributes in its source; it replaces none.)
#[verifier::external_body]
pub(crate) fn with_attribute(c: Container, key: &str, value: &str) -> (out: Container)
    ensures
        container_tag(out) == container_tag(c),
        container_attributes(out) == container_attributes(c).push((key@, value@)),
        container_children(out) == container_children(c),
{
    c.with_attributes([(key, value)])
}

/// `HtmlContainer::with_preformatted_attr` on a container that is no list: a
/// `pre` element with one attribute and the text as its content becomes the
/// last child.
#[verifier::external_body]
pub(crate) fn with_preformatted(c: Container, text: &str, key: &str, value: &str) -> (out:
    Container)
    requires
        !is_list_tag(container_tag(c)),
    ensures
        container_tag(out) == container_tag(c),
        container_attributes(out) == container_attributes(c),
        container_children(out) == container_children(c).push(
            element_markup(seq!['p', 'r', 'e'], seq![(key@, value@)], seq![text@]),
        ),
{
    c.with_preformatted_attr(text, [(key, value)])
}

/// `HtmlContainer::with_raw` on a container that is no list: the content
/// becomes the last child, as it is.
#[verifier::external_body]
pub(crate) fn with_raw(c: Container, content: &str) -> (out: Container)
    requires
        !is_list_tag(container_tag(c)),
    ensures
        container_tag(out) == container_tag(c),
        container_attributes(out) == container_attributes(c),
        container_children(out) == container_children(c).push(content@),
{
    c.with_raw(content)
}

/// `HtmlContainer::with_container` on a container that is no list: the inner
/// container, printed, becomes the last child.
#[verifier::external_body]
pub(crate) fn with_container(c: Container, inner: Container) -> (out: Container)
    requires
        !is_list_tag(container_tag(c)),
    ensures
        container_tag(out) == container_tag(c),
        container_attributes(out) == container_attributes(c),
        container_children(out) == container_children(c).push(container_markup(inner)),
{
    c.with_container(inner)
}

/// `HtmlContainer::add_link_attr` on a container that is no list: an `a`
/// element becomes the last child, with `href` as its first attribute, the
/// given pair as its second, and the text as its content.
#[verifier::external_body]
pub(crate) fn add_link(c: &mut Container, href: &str, text: &str, key: &str, value: &str)
    requires
        !is_list_tag(container_tag(*old(c))),
    ensures
        container_tag(*final(c)) == container_tag(*old(c)),
        container_attributes(*final(c)) == container_attributes(*old(c)),
        container_children(*final(c)) == container_children(*old(c)).push(
            element_markup(seq!['a'], seq![("href"@, href@), (key@, value@)], seq![text@]),
        ),
{
    c.add_link_attr(href, text, [(key, value)])
}

/// `HtmlPage::new`: an HTML5 page with an empty head and an empty body.
#[verifier::external_body]
pub(crate) fn new_page() -> (p: HtmlPage)
    ensures
        page_opening(p) == "<!DOCTYPE html><html>"@,
        page_head(p) == Seq::<char>::empty(),
        page_body(p) == Seq::<char>::empty(),
{
    HtmlPage::new()
}

/// `HtmlPage::with_style`: a `style` element that holds the CSS is added at
/// the end of the head.
#[verifier::external_body]
pub(crate) fn with_style(p: HtmlPage, css: &str) -> (out: HtmlPage)
    ensures
        page_opening(out) == page_opening(p),
        page_head(out) == page_head(p) + "<style>"@ + css@ + "</style>"@,
        page_body(out) == page_body(p),
{
    p.with_style(css)
}

/// `HtmlContainer::with_container` on a page: the container, printed, is
/// added at the end of the body.
#[verifier::external_body]
pub(crate) fn page_with_container(p: HtmlPage, c: Container) -> (out: HtmlPage)
    ensures
        page_opening(out) == page_opening(p),
        page_head(out) == page_head(p),
        page_body(out) == page_body(p) + container_markup(c),
{
    p.with_container(c)
}

/// `Html::to_html_string` on a page: the opening, then head and body, each
/// between its tags, then the closing `html` tag.
#[verifier::external_body]
pub(crate) fn page_to_html_string(p: &HtmlPage) -> (out: String)
    ensures
        out@ == page_markup(page_opening(*p), page_head(*p), page_body(*p)),
{
    p.to_html_string()
}

} // verus!
