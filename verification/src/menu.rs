//! The menu: a tree of items, the document of top-level entries that holds
//! it, and the options of the category listing.

use crate::text::text_view;
use vstd::prelude::*;

verus! {

/// One node of the menu. An item with children is a directory, even where it
/// has none of them; an item without is a single document. `order` is kept
/// for whoever draws the menu: nothing here arranges items by it.
#[derive(Debug, PartialEq, Eq)]
pub struct MenuItem {
    pub name: Option<String>,
    pub visible_in_sidebar: Option<bool>,
    pub page_title: Option<String>,
    pub path: String,
    pub order: Option<i32>,
    pub children: Option<Vec<MenuItem>>,
}

/// What a `MenuItem` holds, as mathematical values.
pub struct MenuItemView {
    pub name: Option<Seq<char>>,
    pub visible_in_sidebar: Option<bool>,
    pub page_title: Option<Seq<char>>,
    pub path: Seq<char>,
    pub order: Option<i32>,
    pub children: Option<Seq<MenuItemView>>,
}

impl MenuItemView {
    /// Whether the item is marked as a category: it has children, if only
    /// an empty list of them. An item without is a plain link or a single
    /// document.
    pub open spec fn is_category(self) -> bool {
        self.children is Some
    }
}

impl View for MenuItem {
    type V = MenuItemView;

    open spec fn view(&self) -> MenuItemView
        decreases self,
    {
        MenuItemView {
            name: text_view(self.name),
            visible_in_sidebar: self.visible_in_sidebar,
            page_title: text_view(self.page_title),
            path: self.path@,
            order: self.order,
            children: match self.children {
                Some(items) => Some(items_view(items@)),
                None => None,
            },
        }
    }
}

/// The views of `items`, in order.
pub open spec fn items_view(items: Seq<MenuItem>) -> Seq<MenuItemView>
    decreases items,
{
    Seq::new(
        items.len(),
        |i: int|
            if 0 <= i < items.len() {
                items[i]@
            } else {
                arbitrary()
            },
    )
}

/// The top-level entries of the menu.
#[derive(Debug, PartialEq, Eq)]
pub struct Endpoints {
    pub home: Vec<MenuItem>,
}

/// What an `Endpoints` holds, as mathematical values.
pub struct EndpointsView {
    pub home: Seq<MenuItemView>,
}

impl View for Endpoints {
    type V = EndpointsView;

    open spec fn view(&self) -> EndpointsView {
        EndpointsView { home: items_view(self.home@) }
    }
}

/// One line of the category listing: a label, `<category> - <child>`, and
/// the path that selects the child, `<category>/<child>`.
#[derive(Clone, Debug, PartialEq, Eq)]
pub struct SidebarOption {
    pub name: String,
    pub value: String,
}

/// What a `SidebarOption` holds, as mathematical values.
pub struct SidebarOptionView {
    pub name: Seq<char>,
    pub value: Seq<char>,
}

impl View for SidebarOption {
    type V = SidebarOptionView;

    open spec fn view(&self) -> SidebarOptionView {
        SidebarOptionView { name: self.name@, value: self.value@ }
    }
}

/// The position of the first of `items` whose path is `path`, or the number
/// of items where none has it.
pub open spec fn path_index(items: Seq<MenuItemView>, path: Seq<char>) -> int
    decreases items.len(),
{
    if items.len() == 0 || items[0].path == path {
        0
    } else {
        1 + path_index(items.drop_first(), path)
    }
}

/// Whether one of `items` has the path `path`.
pub open spec fn has_path(items: Seq<MenuItemView>, path: Seq<char>) -> bool {
    path_index(items, path) < items.len()
}

/// `path_index` is the one position before which no item has the path and
/// at which, if it lies within `items`, an item has it.
pub proof fn lemma_path_index(items: Seq<MenuItemView>, path: Seq<char>)
    ensures
        0 <= path_index(items, path) <= items.len(),
        path_index(items, path) < items.len() ==> items[path_index(items, path)].path == path,
        forall|i: int| 0 <= i < path_index(items, path) ==> (#[trigger] items[i]).path != path,
    decreases items.len(),
{
    if items.len() > 0 && items[0].path != path {
        lemma_path_index(items.drop_first(), path);
        assert forall|i: int| 0 <= i < path_index(items, path) implies (#[trigger] items[i]).path
            != path by {
            if i > 0 {
                assert(items[i] == items.drop_first()[i - 1]);
            }
        }
    }
}

/// A copy of an optional string.
pub fn copy_text(text: &Option<String>) -> (copy: Option<String>)
    ensures
        text_view(copy) == text_view(*text),
{
    match text {
        Some(t) => Some(t.clone()),
        None => None,
    }
}

impl MenuItem {
    /// Whether the item is marked as a category.
    pub fn is_category(&self) -> (marked: bool)
        ensures
            marked == self@.is_category(),
    {
        self.children.is_some()
    }

    /// A copy of the item and of everything below it.
    pub fn duplicate(&self) -> (copy: MenuItem)
        ensures
            copy@ == self@,
        decreases self,
    {
        MenuItem {
            name: copy_text(&self.name),
            visible_in_sidebar: self.visible_in_sidebar,
            page_title: copy_text(&self.page_title),
            path: self.path.clone(),
            order: self.order,
            children: match &self.children {
                Some(items) => Some(duplicate_items(items)),
                None => None,
            },
        }
    }
}

/// A copy of each of `items`, in order.
pub fn duplicate_items(items: &Vec<MenuItem>) -> (copy: Vec<MenuItem>)
    ensures
        items_view(copy@) == items_view(items@),
    decreases items,
{
    let mut copy: Vec<MenuItem> = Vec::new();
    let mut i: usize = 0;
    while i < items.len()
        invariant
            i <= items.len(),
            copy.len() == i,
            forall|k: int| 0 <= k < i ==> (#[trigger] copy@[k])@ == items@[k]@,
        decreases items.len() - i,
    {
        let item = items[i].duplicate();
        copy.push(item);
        i += 1;
    }
    copy
}

/// The position of the first of `items` whose path is `path`, or the number
/// of items where none has it.
pub fn find_path(items: &Vec<MenuItem>, path: &String) -> (at: usize)
    ensures
        at == path_index(items_view(items@), path@),
        at <= items.len(),
{
    let ghost views = items_view(items@);
    let mut at: usize = 0;
    assert(views.skip(0) =~= views);
    while at < items.len() && items[at].path != *path
        invariant
            at <= items.len(),
            views == items_view(items@),
            path_index(views, path@) == at + path_index(views.skip(at as int), path@),
        decreases items.len() - at,
    {
        assert(views.skip(at as int).drop_first() =~= views.skip(at + 1));
        at += 1;
    }
    at
}

impl Endpoints {
    /// A copy of the document and of everything in it.
    pub fn duplicate(&self) -> (copy: Endpoints)
        ensures
            copy@ == self@,
    {
        Endpoints { home: duplicate_items(&self.home) }
    }
}

} // verus!
