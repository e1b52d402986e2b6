//! Questions asked of a menu document: which categories can be previewed,
//! and what a single one of them looks like by itself.

use crate::content::{find_place, items_of_listing, listed_items, resolve, Place};
use crate::error::{PreviewError, PreviewErrorView};
use crate::menu::{
    copy_text, find_path, items_view, path_index, Endpoints, EndpointsView, MenuItem,
    MenuItemView, SidebarOption, SidebarOptionView,
};
use crate::text::{chars_of, decimal, find_char, first_index, push_decimal, string_of, sub_chars};
use vstd::prelude::*;
use vstd::string::StringExecFns;

verus! {

/// What an item is called in the listing: its name, or its path where it
/// has no name.
pub open spec fn label(item: MenuItemView) -> Seq<char> {
    match item.name {
        Some(name) => name,
        None => item.path,
    }
}

/// The option that selects `child` of `category`.
pub open spec fn option_of(category: MenuItemView, child: MenuItemView) -> SidebarOptionView {
    SidebarOptionView {
        name: label(category) + " - "@ + label(child),
        value: category.path + "/"@ + child.path,
    }
}

/// The options of one top-level entry: one for each of its children, in
/// order and whether the child itself is shown or not, if the entry is
/// marked as shown; none if it is marked as hidden or not marked at all.
pub open spec fn category_options(category: MenuItemView) -> Seq<SidebarOptionView> {
    if category.visible_in_sidebar == Some(true) {
        match category.children {
            Some(children) => Seq::new(children.len(), |j: int| option_of(category, children[j])),
            None => Seq::empty(),
        }
    } else {
        Seq::empty()
    }
}

/// The options of the top-level entries `home`, one entry after the other.
pub open spec fn visible_options(home: Seq<MenuItemView>) -> Seq<SidebarOptionView>
    decreases home.len(),
{
    if home.len() == 0 {
        Seq::empty()
    } else {
        visible_options(home.drop_last()) + category_options(home.last())
    }
}

/// The views of `options`, in order.
pub open spec fn options_view(options: Seq<SidebarOption>) -> Seq<SidebarOptionView> {
    Seq::new(options.len(), |i: int| options[i]@)
}

fn label_of(item: &MenuItem) -> (text: &String)
    ensures
        text@ == label(item@),
{
    match &item.name {
        Some(name) => name,
        None => &item.path,
    }
}

fn make_option(category: &MenuItem, child: &MenuItem) -> (option: SidebarOption)
    ensures
        option@ == option_of(category@, child@),
{
    let mut name = label_of(category).clone();
    name.append(" - ");
    name.append(label_of(child).as_str());
    let mut value = category.path.clone();
    value.append("/");
    value.append(child.path.as_str());
    SidebarOption { name, value }
}

/// The categories that can be previewed: for each top-level entry that is
/// marked as shown, one option for each of its children.
pub fn sidebar_options(endpoints: &Endpoints) -> (options: Vec<SidebarOption>)
    ensures
        options_view(options@) == visible_options(endpoints@.home),
{
    let ghost home = endpoints@.home;
    let mut options: Vec<SidebarOption> = Vec::new();
    let mut i: usize = 0;
    while i < endpoints.home.len()
        invariant
            i <= endpoints.home.len(),
            home == items_view(endpoints.home@),
            options_view(options@) == visible_options(home.take(i as int)),
        decreases endpoints.home.len() - i,
    {
        let category = &endpoints.home[i];
        let ghost before = options_view(options@);
        assert(home.take(i + 1).drop_last() =~= home.take(i as int));
        let shown = match category.visible_in_sidebar {
            Some(shown) => shown,
            None => false,
        };
        if shown {
            if let Some(children) = &category.children {
                let ghost all = category_options(category@);
                let mut j: usize = 0;
                assert(category@.children == Some(items_view(children@)));
                while j < children.len()
                    invariant
                        j <= children.len(),
                        category@.children == Some(items_view(children@)),
                        all == category_options(category@),
                        all.len() == children.len(),
                        category.visible_in_sidebar == Some(true),
                        options_view(options@) == before + all.take(j as int),
                    decreases children.len() - j,
                {
                    let option = make_option(category, &children[j]);
                    assert(options_view(options@.push(option)) =~= options_view(options@).push(
                        option@,
                    ));
                    options.push(option);
                    j += 1;
                }
            }
        }
        i += 1;
    }
    assert(home.take(endpoints.home.len() as int) =~= home);
    options
}

/// The line of the listing for the option with the number `number`.
pub open spec fn option_line(number: nat, option: SidebarOptionView) -> Seq<char> {
    decimal(number) + ". "@ + option.name + " ("@ + option.value + ")\n"@
}

/// The lines of the listing for `options`, numbered from 1.
pub open spec fn option_lines(options: Seq<SidebarOptionView>) -> Seq<char>
    decreases options.len(),
{
    if options.len() == 0 {
        Seq::empty()
    } else {
        option_lines(options.drop_last()) + option_line(options.len(), options.last())
    }
}

/// The listing of `options`: a heading, the numbered options, and a hint at
/// how to preview one of them or, where there is none, a remark that there
/// is none.
pub open spec fn listing_text(options: Seq<SidebarOptionView>) -> Seq<char> {
    "Available sidebar categories:\n\n"@ + option_lines(options) + if options.len() == 0 {
        "No visible sidebar categories found.\n"@
    } else {
        "\nTo preview a specific category, use: docter-preview sidebar-preview-category <category_path>\n"@
    }
}

/// The listing of `options` as text.
pub fn listing(options: &Vec<SidebarOption>) -> (text: String)
    ensures
        text@ == listing_text(options_view(options@)),
{
    let ghost views = options_view(options@);
    let ghost heading = "Available sidebar categories:\n\n"@;
    let mut text = String::from_str("Available sidebar categories:\n\n");
    let mut i: usize = 0;
    while i < options.len()
        invariant
            i <= options.len(),
            views == options_view(options@),
            heading == "Available sidebar categories:\n\n"@,
            text@ == heading + option_lines(views.take(i as int)),
        decreases options.len() - i,
    {
        let option = &options[i];
        assert(views.take(i + 1).drop_last() =~= views.take(i as int));
        let mut number: Vec<char> = Vec::new();
        push_decimal(&mut number, i + 1);
        text.append(string_of(&number).as_str());
        text.append(". ");
        text.append(option.name.as_str());
        text.append(" (");
        text.append(option.value.as_str());
        text.append(")\n");
        i += 1;
    }
    assert(views.take(options.len() as int) =~= views);
    if options.len() == 0 {
        text.append("No visible sidebar categories found.\n");
    } else {
        text.append(
            "\nTo preview a specific category, use: docter-preview sidebar-preview-category <category_path>\n",
        );
    }
    text
}

/// The two parts of a category path: what stands before and after its
/// slash, if it holds exactly one.
pub open spec fn split_category_path(path: Seq<char>) -> Option<(Seq<char>, Seq<char>)> {
    let slash = first_index(path, '/');
    if slash < path.len() && first_index(path.skip(slash + 1), '/') == path.len() - (slash + 1) {
        Some((path.take(slash), path.skip(slash + 1)))
    } else {
        None
    }
}

/// Where a category path leads in a menu document: the two parts of the
/// path, the position of the top-level entry, and the position of the child
/// among that entry's children.
pub struct Location {
    pub category: Seq<char>,
    pub product: Seq<char>,
    pub entry: int,
    pub child: int,
}

/// Where `category_path` leads in `doc`. The path has to hold exactly one
/// slash; what stands before it has to be the path of a top-level entry, and
/// what stands after it the path of one of that entry's children: the first
/// with that path counts, each time. The content directory plays no part.
pub open spec fn located(doc: EndpointsView, category_path: Seq<char>) -> Result<
    Location,
    PreviewErrorView,
> {
    match split_category_path(category_path) {
        None => Err(PreviewErrorView::MalformedPath),
        Some((category, product)) => {
            let c = path_index(doc.home, category);
            if c == doc.home.len() {
                Err(PreviewErrorView::CategoryNotFound)
            } else {
                match doc.home[c].children {
                    None => Err(PreviewErrorView::ProductNotFound),
                    Some(children) => {
                        let p = path_index(children, product);
                        if p == children.len() {
                            Err(PreviewErrorView::ProductNotFound)
                        } else {
                            Ok(Location { category, product, entry: c, child: p })
                        }
                    },
                }
            }
        },
    }
}

/// The document that shows the category `category_path` of `doc` by
/// itself. The path has to lead to a child of a top-level entry, and
/// something has to stand at its place in the content directory. The
/// document then holds that one entry with that one child, whose children
/// are the menu items of the directory at that place.
pub open spec fn extract(doc: EndpointsView, category_path: Seq<char>, places: Seq<Place>)
    -> Result<EndpointsView, PreviewErrorView> {
    match located(doc, category_path) {
        Err(e) => Err(e),
        Ok(at) => match resolve(places, at.category, at.product) {
            None => Err(PreviewErrorView::DirectoryNotFound),
            Some(listing) => match listed_items(listing) {
                Err(e) => Err(e),
                Ok(items) => {
                    let entry = doc.home[at.entry];
                    let child = entry.children->Some_0[at.child];
                    Ok(
                        EndpointsView {
                            home: seq![
                                MenuItemView {
                                    children: Some(
                                        seq![MenuItemView { children: Some(items), ..child }],
                                    ),
                                    ..entry
                                },
                            ],
                        },
                    )
                },
            },
        },
    }
}

/// The two parts of the category path `category_path`, if it holds exactly
/// one slash.
pub fn split_path(category_path: &str) -> (parts: Option<(String, String)>)
    ensures
        match parts {
            Some((category, product)) => split_category_path(category_path@) == Some(
                (category@, product@),
            ),
            None => split_category_path(category_path@) is None,
        },
{
    let chars = chars_of(category_path);
    assert(chars@.skip(0) =~= chars@);
    let slash = find_char(&chars, 0, '/');
    if slash == chars.len() {
        return None;
    }
    let second = find_char(&chars, slash + 1, '/');
    if second != chars.len() {
        return None;
    }
    let category = string_of(&sub_chars(&chars, 0, slash));
    let product = string_of(&sub_chars(&chars, slash + 1, chars.len()));
    Some((category, product))
}

fn with_children(item: &MenuItem, children: Vec<MenuItem>) -> (copy: MenuItem)
    ensures
        copy@ == (MenuItemView { children: Some(items_view(children@)), ..item@ }),
{
    MenuItem {
        name: copy_text(&item.name),
        visible_in_sidebar: item.visible_in_sidebar,
        page_title: copy_text(&item.page_title),
        path: item.path.clone(),
        order: item.order,
        children: Some(children),
    }
}

/// Finds where `category_path` leads in `endpoints`, without looking at
/// the content directory: the two parts of the path and the positions of
/// the entry and of its child.
pub fn locate(endpoints: &Endpoints, category_path: &str) -> (result: Result<
    (String, String, usize, usize),
    PreviewError,
>)
    ensures
        match result {
            Ok((category, product, entry, child)) => located(endpoints@, category_path@) == Ok::<
                Location,
                PreviewErrorView,
            >(
                Location {
                    category: category@,
                    product: product@,
                    entry: entry as int,
                    child: child as int,
                },
            ) && entry < endpoints.home.len() && endpoints.home[entry as int].children is Some
                && child < endpoints.home[entry as int].children->Some_0.len(),
            Err(e) => located(endpoints@, category_path@) == Err::<Location, PreviewErrorView>(
                e@,
            ),
        },
{
    let (category, product) = match split_path(category_path) {
        Some(parts) => parts,
        None => {
            return Err(PreviewError::MalformedPath);
        },
    };
    let c = find_path(&endpoints.home, &category);
    if c == endpoints.home.len() {
        return Err(PreviewError::CategoryNotFound);
    }
    let children = match &endpoints.home[c].children {
        Some(children) => children,
        None => {
            return Err(PreviewError::ProductNotFound);
        },
    };
    let p = find_path(children, &product);
    if p == children.len() {
        return Err(PreviewError::ProductNotFound);
    }
    Ok((category, product, c, p))
}

/// Extracts the category `category_path`, of the form `category/product`,
/// from `endpoints`, with the menu items of the directory that `places`
/// holds for it.
pub fn extract_category(endpoints: &Endpoints, category_path: &str, places: &Vec<Place>) -> (result:
    Result<Endpoints, PreviewError>)
    ensures
        match result {
            Ok(bundle) => extract(endpoints@, category_path@, places@) == Ok::<
                EndpointsView,
                PreviewErrorView,
            >(bundle@),
            Err(e) => extract(endpoints@, category_path@, places@) == Err::<
                EndpointsView,
                PreviewErrorView,
            >(e@),
        },
{
    let (category, product, c, p) = match locate(endpoints, category_path) {
        Ok(at) => at,
        Err(e) => {
            return Err(e);
        },
    };
    let entry = &endpoints.home[c];
    let children = match &entry.children {
        Some(children) => children,
        None => {
            return Err(PreviewError::ProductNotFound);
        },
    };
    assert(endpoints@.home[c as int] == entry@);
    assert(entry@.children == Some(items_view(children@)));
    assert(items_view(children@)[p as int] == children@[p as int]@);
    let at = find_place(places, &category, &product);
    if at == places.len() {
        return Err(PreviewError::DirectoryNotFound);
    }
    let items = match items_of_listing(&places[at].listing) {
        Ok(items) => items,
        Err(e) => {
            return Err(e);
        },
    };
    let mut only_child: Vec<MenuItem> = Vec::new();
    only_child.push(with_children(&children[p], items));
    let mut home: Vec<MenuItem> = Vec::new();
    home.push(with_children(entry, only_child));
    assert(items_view(only_child@) =~= seq![only_child@[0]@]);
    assert(items_view(home@) =~= seq![home@[0]@]);
    Ok(Endpoints { home })
}

} // verus!
