//! The listing page: a styled page shell around the request path and one
//! link for each entry of the listing.

use vstd::prelude::*;
use build_html::Container;
use crate::assets::{icon, icon_for, BASE_STYLES};
use crate::listing::{
    directory_listing, entries, found, listing, parent_name, Child, Entry, ListingEntry,
};
use crate::markup::{
    add_link, container_attributes, container_children, container_markup, container_tag,
    element_markup, escape_html, escaped, new_container, new_page, page_markup,
    page_to_html_string, page_with_container, with_attribute, with_container, with_preformatted,
    with_style, ContainerKind,
};
use crate::paths::is_dot_dot;
use crate::resolver::{NotFound, ResolvedTarget, Root};

verus! {

/// What a link shows: `..` for the parent entry, else the icon of the entry
/// and its name, escaped, in a paragraph.
pub open spec fn link_text(e: Entry) -> Seq<char> {
    if e.name == parent_name() {
        parent_name()
    } else {
        icon(e.is_dir) + "<p class=\"text\">"@ + escaped(e.name) + "</p>"@
    }
}

/// The link of one entry.
pub open spec fn link_markup(e: Entry) -> Seq<char> {
    element_markup(seq!['a'], seq![("href"@, e.link), ("class"@, "content"@)], seq![link_text(e)])
}

/// The links of a listing, one for each entry, in the order of the listing.
pub open spec fn links(list: Seq<Entry>) -> Seq<Seq<char>> {
    list.map_values(|e: Entry| link_markup(e))
}

/// The header of the page: the request path, escaped.
pub open spec fn header_markup(route: Seq<char>) -> Seq<char> {
    element_markup(seq!['p', 'r', 'e'], seq![("id"@, "header"@)], seq![escaped(route)])
}

/// The container of the links.
pub open spec fn links_markup(list: Seq<Entry>) -> Seq<char> {
    element_markup(ContainerKind::Div.tag(), seq![("id"@, "wrapper"@)], links(list))
}

/// The body of the listing page: the header, then the links.
pub open spec fn listing_body(route: Seq<char>, list: Seq<Entry>) -> Seq<char> {
    element_markup(
        ContainerKind::Main.tag(),
        seq![("class"@, "border-box"@)],
        seq![header_markup(route), links_markup(list)],
    )
}

/// The page shell: an HTML5 page with the given style blocks in its head.
pub open spec fn shell(styles: Seq<char>, body: Seq<char>) -> Seq<char> {
    page_markup("<!DOCTYPE html><html>"@, styles, body)
}

/// One style block.
pub open spec fn style_block(css: Seq<char>) -> Seq<char> {
    "<style>"@ + css + "</style>"@
}

/// The listing page for a request path and a listing.
pub open spec fn listing_page(route: Seq<char>, list: Seq<Entry>) -> Seq<char> {
    shell(style_block(BASE_STYLES@), listing_body(route, list))
}

/// What the link of an entry shows.
pub fn link_text_for(e: &ListingEntry) -> (text: String)
    ensures
        text@ == link_text(e@),
{
    if is_dot_dot(e.name.as_str()) {
        proof {
            reveal_strlit("..");
            assert(".."@ =~= parent_name());
        }
        String::from_str("..")
    } else {
        let name = escape_html(e.name.as_str());
        let mut text = String::from_str(icon_for(e.is_dir));
        text.append("<p class=\"text\">");
        text.append(name.as_str());
        text.append("</p>");
        text
    }
}

/// The container of the links of a listing.
fn links_container(list: &Vec<ListingEntry>) -> (c: Container)
    ensures
        container_markup(c) == links_markup(entries(list@)),
{
    let mut c = with_attribute(new_container(ContainerKind::Div), "id", "wrapper");
    let n: usize = list.len();
    let mut i: usize = 0;
    proof {
        assert(container_attributes(c) == seq![("id"@, "wrapper"@)]);
        assert(links(entries(list@).take(0)) == Seq::<Seq<char>>::empty());
    }
    while i < n
        invariant
            n == list.len(),
            i <= n,
            container_tag(c) == ContainerKind::Div.tag(),
            container_attributes(c) == seq![("id"@, "wrapper"@)],
            container_children(c) == links(entries(list@).take(i as int)),
        decreases n - i,
    {
        let text = link_text_for(&list[i]);
        proof {
            assert(ContainerKind::Div.tag()[0] == 'd');
            assert(links(entries(list@).take(i as int)).push(link_markup(list@[i as int]@))
                == links(entries(list@).take(i + 1)));
        }
        add_link(&mut c, list[i].link.as_str(), text.as_str(), "class", "content");
        i = i + 1;
    }
    proof {
        assert(entries(list@).take(n as int) == entries(list@));
    }
    c
}

/// The listing page for a request path and a listing. The request path is
/// shown as it was sent, escaped.
pub fn render_listing(route: &str, list: &Vec<ListingEntry>) -> (page: String)
    ensures
        page@ == listing_page(route@, entries(list@)),
{
    let header = escape_html(route);
    let frame = with_attribute(new_container(ContainerKind::Main), "class", "border-box");
    proof {
        assert(ContainerKind::Main.tag()[0] == 'm');
        assert(container_attributes(frame) == seq![("class"@, "border-box"@)]);
    }
    let titled = with_preformatted(frame, header.as_str(), "id", "header");
    let body = with_container(titled, links_container(list));
    proof {
        assert(container_children(body) == seq![
            header_markup(route@),
            links_markup(entries(list@)),
        ]);
    }
    let page = page_with_container(with_style(new_page(), BASE_STYLES), body);
    page_to_html_string(&page)
}

/// The listing page of a directory. `children` is what enumerating the
/// directory found, or nothing where it could not be enumerated. There is no
/// page where there is no enumeration, nor for a target that was not resolved
/// against `root`.
pub fn path_to_html(
    root: &Root,
    route: &str,
    target: &ResolvedTarget,
    children: Option<&Vec<Child>>,
) -> (r: Result<String, NotFound>)
    ensures
        r is Ok <==> children is Some && target.is_under(root),
        r is Ok ==> r.unwrap()@ == listing_page(
            route@,
            listing(target.relative_segments(), found(children.unwrap()@)),
        ),
{
    match children {
        None => Err(NotFound),
        Some(children) => match directory_listing(root, target, children) {
            Err(e) => Err(e),
            Ok(list) => Ok(render_listing(route, &list)),
        },
    }
}

} // verus!
