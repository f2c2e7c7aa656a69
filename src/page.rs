//! The HTML page of a listing, built with build_html.
use build_html::{Container, ContainerType, Html, HtmlContainer, HtmlPage};
use vstd::prelude::*;

use crate::listing::{is_listing, listing_items, DirEntry, ListingItem};
use crate::paths::{url_of, url_spec};

verus! {

#[verifier::external_type_specification]
#[verifier::external_body]
pub struct ExContainer(Container);

/// The HTML text of each child of a container, in the order they were added.
pub uninterp spec fn children_of(c: Container) -> Seq<Seq<char>>;

/// The tag of a container (`ul`, `main`).
pub uninterp spec fn tag_of(c: Container) -> Seq<char>;

/// The attributes of a container, as build_html writes them after the tag.
pub uninterp spec fn attrs_of(c: Container) -> Seq<char>;

/// The pieces written one after the other.
pub open spec fn concat_all(parts: Seq<Seq<char>>) -> Seq<char>
    decreases parts.len(),
{
    if parts.len() == 0 {
        Seq::empty()
    } else {
        concat_all(parts.drop_last()) + parts.last()
    }
}

/// An element as build_html writes it: self-closed when it has no child.
pub open spec fn element_html(tag: Seq<char>, children: Seq<Seq<char>>) -> Seq<char> {
    if children.len() == 0 {
        "<"@ + tag + "/>"@
    } else {
        "<"@ + tag + ">"@ + concat_all(children) + "</"@ + tag + ">"@
    }
}

/// A link as an item of a list.
pub open spec fn link_item_html(href: Seq<char>, text: Seq<char>) -> Seq<char> {
    "<li><a href=\""@ + href + "\">"@ + text + "</a></li>"@
}

/// The tag of a heading of level `level`.
pub open spec fn heading_tag(level: u8) -> Seq<char> {
    if level == 1 {
        "h1"@
    } else if level == 2 {
        "h2"@
    } else if level == 3 {
        "h3"@
    } else if level == 4 {
        "h4"@
    } else if level == 5 {
        "h5"@
    } else {
        "h6"@
    }
}

pub open spec fn heading_html(level: u8, text: Seq<char>) -> Seq<char> {
    "<"@ + heading_tag(level) + ">"@ + text + "</"@ + heading_tag(level) + ">"@
}

/// An HTML5 page with the title `title` whose body is the element `body`.
pub open spec fn page_spec(title: Seq<char>, body: Seq<char>) -> Seq<char> {
    "<!DOCTYPE html><html><head><title>"@ + title + "</title></head><body>"@ + body + "</body></html>"@
}

/// Relies on build_html's `Container::new` with `ContainerType::UnorderedList`:
/// an empty `ul`.
#[verifier::external_body]
fn new_link_list() -> (r: Container)
    ensures
        tag_of(r) == "ul"@,
        attrs_of(r) == Seq::<char>::empty(),
        children_of(r) == Seq::<Seq<char>>::empty(),
{
    Container::new(ContainerType::UnorderedList)
}

/// Relies on build_html's `Container::new` with `ContainerType::Main`: an
/// empty `main`.
#[verifier::external_body]
fn new_main() -> (r: Container)
    ensures
        tag_of(r) == "main"@,
        attrs_of(r) == Seq::<char>::empty(),
        children_of(r) == Seq::<Seq<char>>::empty(),
{
    Container::new(ContainerType::Main)
}

/// Relies on build_html's `HtmlContainer::add_link` on a list: the link,
/// wrapped in `li`, goes after the other children.
#[verifier::external_body]
fn push_link(list: &mut Container, href: &str, text: &str)
    requires
        tag_of(*old(list)) == "ul"@,
    ensures
        tag_of(*final(list)) == tag_of(*old(list)),
        attrs_of(*final(list)) == attrs_of(*old(list)),
        children_of(*final(list)) == children_of(*old(list)).push(link_item_html(href@, text@)),
{
    list.add_link(href, text);
}

/// Relies on build_html's `HtmlContainer::add_header` on a container that is
/// not a list; it panics on a level outside 1 to 6.
#[verifier::external_body]
fn add_heading(c: &mut Container, level: u8, text: &str)
    requires
        tag_of(*old(c)) == "main"@,
        1 <= level <= 6,
    ensures
        tag_of(*final(c)) == tag_of(*old(c)),
        attrs_of(*final(c)) == attrs_of(*old(c)),
        children_of(*final(c)) == children_of(*old(c)).push(heading_html(level, text@)),
{
    c.add_header(level, text);
}

/// Relies on build_html's `HtmlContainer::add_raw` on a container that is
/// not a list: the text goes in as it is.
#[verifier::external_body]
fn add_raw(c: &mut Container, text: &str)
    requires
        tag_of(*old(c)) == "main"@,
    ensures
        tag_of(*final(c)) == tag_of(*old(c)),
        attrs_of(*final(c)) == attrs_of(*old(c)),
        children_of(*final(c)) == children_of(*old(c)).push(text@),
{
    c.add_raw(text);
}

/// Relies on build_html's `HtmlContainer::add_container` on a container that
/// is not a list: the inner container, without attributes, goes in as its
/// HTML.
#[verifier::external_body]
fn add_container(c: &mut Container, inner: Container)
    requires
        tag_of(*old(c)) == "main"@,
        attrs_of(inner) == Seq::<char>::empty(),
    ensures
        tag_of(*final(c)) == tag_of(*old(c)),
        attrs_of(*final(c)) == attrs_of(*old(c)),
        children_of(*final(c)) == children_of(*old(c)).push(
            element_html(tag_of(inner), children_of(inner)),
        ),
{
    c.add_container(inner);
}

/// Relies on build_html's `HtmlPage::new`, `with_title`, `with_container`
/// and `to_html_string`: an HTML5 page with that title and that body (a
/// container without attributes).
#[verifier::external_body]
fn page_html(title: &str, body: Container) -> (r: String)
    requires
        attrs_of(body) == Seq::<char>::empty(),
    ensures
        r@ == page_spec(title@, element_html(tag_of(body), children_of(body))),
{
    HtmlPage::new().with_title(title).with_container(body).to_html_string()
}

/// The title of the listing of the directory at `rel`.
pub open spec fn title_spec(rel: Seq<Seq<char>>) -> Seq<char> {
    "Directory listing for "@ + url_spec(rel)
}

/// The list items of a page for `items`: each item's URL with its shown name.
pub open spec fn list_lines(items: Seq<ListingItem>) -> Seq<Seq<char>> {
    items.map_values(|it: ListingItem| link_item_html(it.link@, it.name@))
}

/// The page of the listing of the directory at `rel` with the lines
/// `items`: the title, then in `main` the title as heading and the list
/// between two rules.
pub open spec fn listing_html(rel: Seq<Seq<char>>, items: Seq<ListingItem>) -> Seq<char> {
    page_spec(
        title_spec(rel),
        element_html(
            "main"@,
            seq![
                heading_html(1, title_spec(rel)),
                "<hr>"@,
                element_html("ul"@, list_lines(items)),
                "<hr>"@,
            ],
        ),
    )
}

/// The title of the listing of the directory at `rel`.
pub fn listing_title(rel: &Vec<String>) -> (r: String)
    ensures
        r@ == title_spec(rel.deep_view()),
{
    let mut t = String::from_str("Directory listing for ");
    let u = url_of(rel);
    t.append(u.as_str());
    t
}

/// The page for the lines `items` of the listing of the directory at `rel`.
pub fn render_listing(rel: &Vec<String>, items: &Vec<ListingItem>) -> (r: String)
    ensures
        r@ == listing_html(rel.deep_view(), items@),
{
    let mut list = new_link_list();
    let mut i: usize = 0;
    while i < items.len()
        invariant
            i <= items.len(),
            tag_of(list) == "ul"@,
            attrs_of(list) == Seq::<char>::empty(),
            children_of(list) == list_lines(items@.take(i as int)),
        decreases items.len() - i,
    {
        push_link(&mut list, items[i].link.as_str(), items[i].name.as_str());
        proof {
            assert(list_lines(items@.take(i + 1)) =~= list_lines(items@.take(i as int)).push(
                link_item_html(items@[i as int].link@, items@[i as int].name@),
            ));
        }
        i = i + 1;
    }
    proof {
        assert(items@.take(i as int) =~= items@);
    }
    let title = listing_title(rel);
    let mut body = new_main();
    add_heading(&mut body, 1, title.as_str());
    add_raw(&mut body, "<hr>");
    add_container(&mut body, list);
    add_raw(&mut body, "<hr>");
    proof {
        assert(children_of(body) =~= seq![
            heading_html(1, title_spec(rel.deep_view())),
            "<hr>"@,
            element_html("ul"@, list_lines(items@)),
            "<hr>"@,
        ]);
    }
    page_html(title.as_str(), body)
}

/// The page listing the directory at `rel` (below the served root) that
/// holds `entries`.
pub fn listing_page(rel: &Vec<String>, entries: &Vec<DirEntry>) -> (r: String)
    ensures
        exists|items: Seq<ListingItem>|
            is_listing(rel.deep_view(), entries@, items) && r@ == listing_html(rel.deep_view(), items),
{
    let items = listing_items(rel, entries);
    let r = render_listing(rel, &items);
    proof {
        assert(is_listing(rel.deep_view(), entries@, items@));
    }
    r
}

} // verus!
