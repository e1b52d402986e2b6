//! Putting the menu together: the skeleton of top-level entries with the
//! items of the content directory spliced in.

use crate::content::{find_place, items_of_listing, listed_items, resolve, DirEntry, Place};
use crate::error::{PreviewError, PreviewErrorView};
use crate::menu::{copy_text, items_view, Endpoints, EndpointsView, MenuItem, MenuItemView};
use crate::text::{decimal, push_decimal, string_of};
use vstd::prelude::*;
use vstd::string::StringExecFns;

verus! {

/// The places that one top-level entry asks for: one for each of its
/// children that is marked as a category, in order, named by the entry's
/// path and the child's.
pub open spec fn places_of_children(category: Seq<char>, children: Seq<MenuItemView>) -> Seq<
    (Seq<char>, Seq<char>),
>
    decreases children.len(),
{
    if children.len() == 0 {
        Seq::empty()
    } else if children.last().is_category() {
        places_of_children(category, children.drop_last()).push((category, children.last().path))
    } else {
        places_of_children(category, children.drop_last())
    }
}

/// The places that one top-level entry asks for.
pub open spec fn places_of_entry(entry: MenuItemView) -> Seq<(Seq<char>, Seq<char>)> {
    match entry.children {
        Some(children) => places_of_children(entry.path, children),
        None => Seq::empty(),
    }
}

/// The places of the content directory that a build from the top-level
/// entries `home` asks for, entry after entry.
pub open spec fn asked_places(home: Seq<MenuItemView>) -> Seq<(Seq<char>, Seq<char>)>
    decreases home.len(),
{
    if home.len() == 0 {
        Seq::empty()
    } else {
        asked_places(home.drop_last()) + places_of_entry(home.last())
    }
}

/// The pairs of texts that `pairs` holds.
pub open spec fn pairs_view(pairs: Seq<(String, String)>) -> Seq<(Seq<char>, Seq<char>)> {
    Seq::new(pairs.len(), |i: int| (pairs[i].0@, pairs[i].1@))
}

/// The places of the content directory that a build from `endpoints` asks
/// for, each as the path of a top-level entry and the path of one of its
/// children. Nothing else of the content directory needs to be looked at.
pub fn category_places(endpoints: &Endpoints) -> (places: Vec<(String, String)>)
    ensures
        pairs_view(places@) == asked_places(endpoints@.home),
{
    let ghost home = endpoints@.home;
    let mut places: Vec<(String, String)> = Vec::new();
    let mut i: usize = 0;
    assert(pairs_view(places@) =~= asked_places(home.take(0)));
    while i < endpoints.home.len()
        invariant
            i <= endpoints.home.len(),
            home == items_view(endpoints.home@),
            pairs_view(places@) == asked_places(home.take(i as int)),
        decreases endpoints.home.len() - i,
    {
        let entry = &endpoints.home[i];
        let ghost before = pairs_view(places@);
        assert(home.take(i + 1).drop_last() =~= home.take(i as int));
        assert(home.take(i + 1).last() == entry@);
        if let Some(children) = &entry.children {
            let ghost views = items_view(children@);
            let mut j: usize = 0;
            assert(pairs_view(places@) =~= before + places_of_children(entry@.path, views.take(0)));
            while j < children.len()
                invariant
                    j <= children.len(),
                    views == items_view(children@),
                    pairs_view(places@) == before + places_of_children(
                        entry@.path,
                        views.take(j as int),
                    ),
                decreases children.len() - j,
            {
                let child = &children[j];
                assert(views.take(j + 1).drop_last() =~= views.take(j as int));
                assert(views.take(j + 1).last() == child@);
                if child.is_category() {
                    let pair = (entry.path.clone(), child.path.clone());
                    assert(pairs_view(places@.push(pair)) =~= pairs_view(places@).push(
                        (entry@.path, child@.path),
                    ));
                    assert((before + places_of_children(entry@.path, views.take(j as int))).push(
                        (entry@.path, child@.path),
                    ) =~= before + places_of_children(entry@.path, views.take(j + 1)));
                    places.push(pair);
                }
                j += 1;
            }
            assert(views.take(children.len() as int) =~= views);
        } else {
            assert(before + places_of_entry(entry@) =~= before);
        }
        i += 1;
    }
    assert(home.take(endpoints.home.len() as int) =~= home);
    places
}

/// A child of a top-level entry after the build. A child that the skeleton
/// does not mark as a category is a plain link and stays as it is. Of one
/// that it marks, the children are replaced, all of them, by the menu items
/// of `found`, which is what stands at its place in the content directory,
/// and the build fails where these fail. Where nothing stands there the
/// child stays as it is.
pub open spec fn spliced(child: MenuItemView, found: Option<Result<Vec<DirEntry>, String>>)
    -> Result<MenuItemView, PreviewErrorView> {
    if !child.is_category() {
        Ok(child)
    } else {
        match found {
            None => Ok(child),
            Some(listing) => match listed_items(listing) {
                Ok(items) => Ok(MenuItemView { children: Some(items), ..child }),
                Err(e) => Err(e),
            },
        }
    }
}

/// The child `child` of the top-level entry with the path `category` after
/// the build.
pub open spec fn rebuilt_child(places: Seq<Place>, category: Seq<char>, child: MenuItemView)
    -> Result<MenuItemView, PreviewErrorView> {
    spliced(child, resolve(places, category, child.path))
}

/// The position of the first of `children` that fails to be rebuilt, or
/// their number where none fails.
pub open spec fn failing_child(
    places: Seq<Place>,
    category: Seq<char>,
    children: Seq<MenuItemView>,
) -> int
    decreases children.len(),
{
    if children.len() == 0 || rebuilt_child(places, category, children[0]) is Err {
        0
    } else {
        1 + failing_child(places, category, children.drop_first())
    }
}

/// `failing_child` is the one position before which every child is rebuilt
/// and at which, if it lies within `children`, a child fails.
pub proof fn lemma_failing_child(
    places: Seq<Place>,
    category: Seq<char>,
    children: Seq<MenuItemView>,
)
    ensures
        0 <= failing_child(places, category, children) <= children.len(),
        failing_child(places, category, children) < children.len() ==> rebuilt_child(
            places,
            category,
            children[failing_child(places, category, children)],
        ) is Err,
        forall|j: int|
            0 <= j < failing_child(places, category, children) ==> #[trigger] rebuilt_child(
                places,
                category,
                children[j],
            ) is Ok,
    decreases children.len(),
{
    if children.len() > 0 && rebuilt_child(places, category, children[0]) is Ok {
        lemma_failing_child(places, category, children.drop_first());
        assert forall|j: int| 0 <= j < failing_child(places, category, children) implies (
        #[trigger] rebuilt_child(places, category, children[j])) is Ok by {
            if j > 0 {
                assert(children[j] == children.drop_first()[j - 1]);
            }
        }
    }
}

/// A top-level entry after the build: each of its children rebuilt, or the
/// failure of the first of them that fails. An entry without children
/// stays as it is.
pub open spec fn rebuilt_entry(places: Seq<Place>, entry: MenuItemView) -> Result<
    MenuItemView,
    PreviewErrorView,
> {
    match entry.children {
        None => Ok(entry),
        Some(children) => {
            let at = failing_child(places, entry.path, children);
            if at < children.len() {
                Err(rebuilt_child(places, entry.path, children[at])->Err_0)
            } else {
                Ok(
                    MenuItemView {
                        children: Some(
                            Seq::new(
                                children.len(),
                                |j: int| rebuilt_child(places, entry.path, children[j])->Ok_0,
                            ),
                        ),
                        ..entry
                    },
                )
            }
        },
    }
}

/// The position of the first of the top-level entries `home` that fails to
/// be rebuilt, or their number where none fails.
pub open spec fn failing_entry(places: Seq<Place>, home: Seq<MenuItemView>) -> int
    decreases home.len(),
{
    if home.len() == 0 || rebuilt_entry(places, home[0]) is Err {
        0
    } else {
        1 + failing_entry(places, home.drop_first())
    }
}

/// `failing_entry` is the one position before which every entry is rebuilt
/// and at which, if it lies within `home`, an entry fails.
pub proof fn lemma_failing_entry(places: Seq<Place>, home: Seq<MenuItemView>)
    ensures
        0 <= failing_entry(places, home) <= home.len(),
        failing_entry(places, home) < home.len() ==> rebuilt_entry(
            places,
            home[failing_entry(places, home)],
        ) is Err,
        forall|i: int|
            0 <= i < failing_entry(places, home) ==> #[trigger] rebuilt_entry(places, home[i])
                is Ok,
    decreases home.len(),
{
    if home.len() > 0 && rebuilt_entry(places, home[0]) is Ok {
        lemma_failing_entry(places, home.drop_first());
        assert forall|i: int| 0 <= i < failing_entry(places, home) implies (
        #[trigger] rebuilt_entry(places, home[i])) is Ok by {
            if i > 0 {
                assert(home[i] == home.drop_first()[i - 1]);
            }
        }
    }
}

/// The menu document that the skeleton `doc` and the places `places` of
/// the content directory give: each top-level entry rebuilt, or the failure
/// of the first of them that fails.
pub open spec fn build(doc: EndpointsView, places: Seq<Place>) -> Result<
    EndpointsView,
    PreviewErrorView,
> {
    let at = failing_entry(places, doc.home);
    if at < doc.home.len() {
        Err(rebuilt_entry(places, doc.home[at])->Err_0)
    } else {
        Ok(
            EndpointsView {
                home: Seq::new(doc.home.len(), |i: int| rebuilt_entry(places, doc.home[i])->Ok_0),
            },
        )
    }
}

fn with_items(item: &MenuItem, children: Vec<MenuItem>) -> (copy: MenuItem)
    ensures
        copy@ == (MenuItemView { children: Some(items_view(children@)), ..item@ }),
{
    MenuItem {
        name: copy_text(&item.name),
        visible_in_sidebar: item.visible_in_sidebar,
        page_title: copy_text(&item.page_title),
        path: item.path.clone(),
        order: item.order,
        children: Some(children),
    }
}

fn rebuild_child(places: &Vec<Place>, category: &String, child: &MenuItem) -> (result: Result<
    MenuItem,
    PreviewError,
>)
    ensures
        match result {
            Ok(item) => rebuilt_child(places@, category@, child@) == Ok::<
                MenuItemView,
                PreviewErrorView,
            >(item@),
            Err(e) => rebuilt_child(places@, category@, child@) == Err::<
                MenuItemView,
                PreviewErrorView,
            >(e@),
        },
{
    if !child.is_category() {
        return Ok(child.duplicate());
    }
    let at = find_place(places, category, &child.path);
    if at == places.len() {
        return Ok(child.duplicate());
    }
    match items_of_listing(&places[at].listing) {
        Ok(items) => Ok(with_items(child, items)),
        Err(e) => Err(e),
    }
}

fn rebuild_entry(places: &Vec<Place>, entry: &MenuItem) -> (result: Result<MenuItem, PreviewError>)
    ensures
        match result {
            Ok(item) => rebuilt_entry(places@, entry@) == Ok::<MenuItemView, PreviewErrorView>(
                item@,
            ),
            Err(e) => rebuilt_entry(places@, entry@) == Err::<MenuItemView, PreviewErrorView>(e@),
        },
{
    let children = match &entry.children {
        None => {
            return Ok(entry.duplicate());
        },
        Some(children) => children,
    };
    let ghost views = items_view(children@);
    let mut rebuilt: Vec<MenuItem> = Vec::new();
    let mut j: usize = 0;
    assert(views.skip(0) =~= views);
    while j < children.len()
        invariant
            j <= children.len(),
            rebuilt.len() == j,
            views == items_view(children@),
            entry@.children == Some(views),
            failing_child(places@, entry@.path, views) == j + failing_child(
                places@,
                entry@.path,
                views.skip(j as int),
            ),
            forall|k: int|
                0 <= k < j ==> #[trigger] rebuilt_child(places@, entry@.path, views[k]) == Ok::<
                    MenuItemView,
                    PreviewErrorView,
                >(rebuilt@[k]@),
        decreases children.len() - j,
    {
        assert(views.skip(j as int).drop_first() =~= views.skip(j + 1));
        assert(views.skip(j as int)[0] == children@[j as int]@);
        match rebuild_child(places, &entry.path, &children[j]) {
            Ok(item) => {
                rebuilt.push(item);
            },
            Err(e) => {
                return Err(e);
            },
        }
        j += 1;
    }
    let item = with_items(entry, rebuilt);
    assert(items_view(rebuilt@) =~= Seq::new(
        views.len(),
        |k: int| rebuilt_child(places@, entry@.path, views[k])->Ok_0,
    ));
    Ok(item)
}

/// Builds the menu document: a copy of the skeleton `endpoints` in which
/// every child of a top-level entry that is marked as a category, and at
/// whose place `<entry path>/<child path>` something stands in the content
/// directory, has the menu items of that directory for children. Nothing
/// else is changed. Fails where the traversal of one of these directories
/// fails, with the first such failure.
pub fn build_menu_items(endpoints: &Endpoints, places: &Vec<Place>) -> (result: Result<
    Endpoints,
    PreviewError,
>)
    ensures
        match result {
            Ok(menu) => build(endpoints@, places@) == Ok::<EndpointsView, PreviewErrorView>(
                menu@,
            ),
            Err(e) => build(endpoints@, places@) == Err::<EndpointsView, PreviewErrorView>(e@),
        },
{
    let ghost views = endpoints@.home;
    let mut home: Vec<MenuItem> = Vec::new();
    let mut i: usize = 0;
    assert(views.skip(0) =~= views);
    while i < endpoints.home.len()
        invariant
            i <= endpoints.home.len(),
            home.len() == i,
            views == items_view(endpoints.home@),
            failing_entry(places@, views) == i + failing_entry(places@, views.skip(i as int)),
            forall|k: int|
                0 <= k < i ==> #[trigger] rebuilt_entry(places@, views[k]) == Ok::<
                    MenuItemView,
                    PreviewErrorView,
                >(home@[k]@),
        decreases endpoints.home.len() - i,
    {
        assert(views.skip(i as int).drop_first() =~= views.skip(i + 1));
        assert(views.skip(i as int)[0] == endpoints.home@[i as int]@);
        match rebuild_entry(places, &endpoints.home[i]) {
            Ok(item) => {
                home.push(item);
            },
            Err(e) => {
                return Err(e);
            },
        }
        i += 1;
    }
    assert(items_view(home@) =~= Seq::new(
        views.len(),
        |k: int| rebuilt_entry(places@, views[k])->Ok_0,
    ));
    Ok(Endpoints { home })
}

/// The name of the file, in the content directory, that the menu document
/// is written to; a file of that name is replaced.
pub fn menu_file_name() -> (name: &'static str)
    ensures
        name@ == "menuItems.json"@,
{
    "menuItems.json"
}

/// What is said once the menu document has been written to `destination`.
pub open spec fn build_summary(destination: Seq<char>, count: nat) -> Seq<char> {
    "Menu items successfully built and saved to: "@ + destination + "\n\nGenerated "@ + decimal(
        count,
    ) + " top-level categories."@
}

/// The summary of a build that wrote `count` top-level entries to
/// `destination`.
pub fn summary(destination: &str, count: usize) -> (text: String)
    ensures
        text@ == build_summary(destination@, count as nat),
{
    let mut number: Vec<char> = Vec::new();
    push_decimal(&mut number, count);
    let mut text = String::from_str("Menu items successfully built and saved to: ");
    text.append(destination);
    text.append("\n\nGenerated ");
    text.append(string_of(&number).as_str());
    text.append(" top-level categories.");
    text
}

} // verus!
