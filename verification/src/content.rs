//! A snapshot of the content directory, and the menu items that a directory
//! of it gives.

use crate::error::{PreviewError, PreviewErrorView};
use crate::front_matter::{
    normalize, parse_document, parse_front_matter, FrontMatter, FrontMatterView,
};
use crate::menu::{find_path, has_path, items_view, MenuItem, MenuItemView};
use crate::order::{positions, sort_names, sorted_order, texts};
use crate::text::{chars_of, find_char, first_index, starts_with_at, string_of, sub_chars};
use vstd::prelude::*;
use vstd::string::StringExecFns;

verus! {

/// What a directory entry is, as far as the menu depends on it.
#[derive(Debug, PartialEq, Eq)]
pub enum Node {
    /// A directory and its entries in the order in which they were listed,
    /// or what was said where it could not be listed.
    Directory(Result<Vec<DirEntry>, String>),
    /// Anything else, with its text, or what was said where it could not be
    /// read as text or why it was not read.
    File(Result<String, String>),
}

/// One entry of a directory.
#[derive(Debug, PartialEq, Eq)]
pub struct DirEntry {
    pub file_name: String,
    pub node: Node,
}

/// The file names of `entries`, in the order in which they were listed.
pub open spec fn entry_names(entries: Seq<DirEntry>) -> Seq<Seq<char>> {
    Seq::new(entries.len(), |i: int| entries[i].file_name@)
}

/// The positions of `entries` in the order in which they are gone through:
/// by file name; entries of one name in the order in which they were
/// listed.
pub open spec fn listing_order(entries: Seq<DirEntry>) -> Seq<int> {
    sorted_order(entry_names(entries), entries.len())
}

fn sort_entries(entries: &Vec<DirEntry>) -> (order: Vec<usize>)
    ensures
        positions(order@) == listing_order(entries@),
        order.len() == entries.len(),
        forall|p: int| 0 <= p < order.len() ==> #[trigger] order@[p] < entries.len(),
{
    let mut names: Vec<Vec<char>> = Vec::new();
    let mut k: usize = 0;
    while k < entries.len()
        invariant
            k <= entries.len(),
            names.len() == k,
            forall|j: int| 0 <= j < k ==> (#[trigger] names@[j])@ == entries@[j].file_name@,
        decreases entries.len() - k,
    {
        names.push(chars_of(entries[k].file_name.as_str()));
        k += 1;
    }
    assert(texts(names@) =~= entry_names(entries@));
    sort_names(&names)
}

/// The part of a file name before its first dot; the whole name where it
/// has none.
pub open spec fn stem(name: Seq<char>) -> Seq<char> {
    name.take(first_index(name, '.'))
}

/// Whether the name ends with `.mdx`. Only of a file with such a name is
/// the text ever looked at.
pub open spec fn has_extension(name: Seq<char>) -> bool {
    name.len() >= 4 && name.skip(name.len() - 4) == ".mdx"@
}

/// Whether a file of this name is a document: the name ends with `.mdx` and
/// something stands before that.
pub open spec fn is_document_name(name: Seq<char>) -> bool {
    name.len() > 4 && has_extension(name)
}

/// The name of the document that describes the directory with the stem
/// `stem`, and lies in it.
pub open spec fn index_name(stem: Seq<char>) -> Seq<char> {
    stem + ".mdx"@
}

fn stem_chars(name: &Vec<char>) -> (part: Vec<char>)
    ensures
        part@ == stem(name@),
{
    assert(name@.skip(0) =~= name@);
    let dot = find_char(name, 0, '.');
    sub_chars(name, 0, dot)
}

fn has_extension_chars(name: &Vec<char>) -> (ends: bool)
    ensures
        ends == has_extension(name@),
{
    let suffix = chars_of(".mdx");
    proof {
        reveal_strlit(".mdx");
    }
    if name.len() >= 4 {
        let found = starts_with_at(name, name.len() - 4, &suffix);
        assert(name@.skip(name.len() - 4).take(4) =~= name@.skip(name.len() - 4));
        found
    } else {
        false
    }
}

fn is_document_chars(name: &Vec<char>) -> (document: bool)
    ensures
        document == is_document_name(name@),
{
    name.len() > 4 && has_extension_chars(name)
}

/// Whether a file of the name `file_name` is a document.
pub fn is_document(file_name: &str) -> (document: bool)
    ensures
        document == is_document_name(file_name@),
{
    let name = chars_of(file_name);
    is_document_chars(&name)
}

/// Whether the text of a file of the name `file_name` may be looked at: as
/// a document, or as the document that its directory is named after. No
/// other file needs to be read.
pub fn needs_text(file_name: &str) -> (needed: bool)
    ensures
        needed == has_extension(file_name@),
{
    let name = chars_of(file_name);
    has_extension_chars(&name)
}

/// The menu item with the path `path` and the metadata `fm`.
pub open spec fn item_of(
    path: Seq<char>,
    fm: FrontMatterView,
    children: Option<Seq<MenuItemView>>,
) -> MenuItemView {
    MenuItemView {
        name: fm.sidebar_title,
        visible_in_sidebar: fm.visible_in_sidebar,
        page_title: fm.page_title,
        path,
        order: fm.order,
        children,
    }
}

/// The metadata of a directory that holds no document to describe it: both
/// titles are its stem, it is shown, and its order is 0.
pub open spec fn synthesized(stem: Seq<char>) -> FrontMatterView {
    FrontMatterView {
        sidebar_title: Some(stem),
        visible_in_sidebar: Some(true),
        page_title: Some(stem),
        order: Some(0),
    }
}

/// The position of the first of `entries` with the file name `name`, or the
/// number of entries where none has it.
pub open spec fn entry_index(entries: Seq<DirEntry>, name: Seq<char>) -> int
    decreases entries.len(),
{
    if entries.len() == 0 || entries[0].file_name@ == name {
        0
    } else {
        1 + entry_index(entries.drop_first(), name)
    }
}

/// `entry_index` is the one position before which no entry has the name and
/// at which, if it lies within `entries`, an entry has it.
pub proof fn lemma_entry_index(entries: Seq<DirEntry>, name: Seq<char>)
    ensures
        0 <= entry_index(entries, name) <= entries.len(),
        entry_index(entries, name) < entries.len() ==> entries[entry_index(
            entries,
            name,
        )].file_name@ == name,
        forall|i: int|
            0 <= i < entry_index(entries, name) ==> (#[trigger] entries[i]).file_name@ != name,
    decreases entries.len(),
{
    if entries.len() > 0 && entries[0].file_name@ != name {
        lemma_entry_index(entries.drop_first(), name);
        assert forall|i: int| 0 <= i < entry_index(entries, name) implies (
        #[trigger] entries[i]).file_name@ != name by {
            if i > 0 {
                assert(entries[i] == entries.drop_first()[i - 1]);
            }
        }
    }
}

/// The position of the first of `entries` with the file name `name`, or the
/// number of entries where none has it.
pub fn find_entry(entries: &Vec<DirEntry>, name: &String) -> (at: usize)
    ensures
        at == entry_index(entries@, name@),
        at <= entries.len(),
{
    let mut at: usize = 0;
    assert(entries@.skip(0) =~= entries@);
    while at < entries.len() && entries[at].file_name != *name
        invariant
            at <= entries.len(),
            entry_index(entries@, name@) == at + entry_index(entries@.skip(at as int), name@),
        decreases entries.len() - at,
    {
        assert(entries@.skip(at as int).drop_first() =~= entries@.skip(at + 1));
        at += 1;
    }
    at
}

/// The metadata of a document, given what was read of it: that of its text
/// with misread em dashes put right, or failure, for the reason that was
/// given, where nothing was read.
pub open spec fn document_metadata(text: Result<String, String>) -> Result<
    FrontMatterView,
    PreviewErrorView,
> {
    match text {
        Ok(t) => Ok(parse_front_matter(normalize(t@))),
        Err(cause) => Err(PreviewErrorView::IoFailure(cause@)),
    }
}

/// What is said of an entry that is read as a document and is a directory.
pub open spec fn directory_read_as_document() -> Seq<char> {
    "Is a directory"@
}

/// The metadata of the directory with the stem `stem` and the entries
/// `listing`: that of the document in it that is named after it; where it
/// holds none, the synthesized metadata; failure where the entry of that
/// name is no file that was read.
pub open spec fn directory_metadata(stem: Seq<char>, listing: Seq<DirEntry>) -> Result<
    FrontMatterView,
    PreviewErrorView,
> {
    let at = entry_index(listing, index_name(stem));
    if at == listing.len() {
        Ok(synthesized(stem))
    } else {
        match listing[at].node {
            Node::File(text) => document_metadata(text),
            Node::Directory(_) => Err(PreviewErrorView::IoFailure(directory_read_as_document())),
        }
    }
}

/// What one entry, taken by itself, offers to the menu.
pub enum Candidate {
    /// Neither a directory nor a document: nothing.
    Ignored,
    /// A directory: the item that stands for it, or the failure to make it.
    Directory(Result<MenuItemView, PreviewErrorView>),
    /// A document: its stem and the item that stands for it, or the failure
    /// to make it.
    Document(Seq<char>, Result<MenuItemView, PreviewErrorView>),
}

/// What `entry` offers. A directory offers an item with its stem as path,
/// its metadata and the items of its own entries as children; it fails where
/// it was not listed, else where its metadata fails, else where its own
/// entries fail, each time with that failure. A file with a document's name
/// offers an item without children, with its stem as path and its own
/// metadata.
pub open spec fn candidate(entry: DirEntry) -> Candidate
    decreases entry, 0nat,
{
    let path = stem(entry.file_name@);
    match entry.node {
        Node::Directory(Err(cause)) => Candidate::Directory(
            Err(PreviewErrorView::IoFailure(cause@)),
        ),
        Node::Directory(Ok(listing)) => Candidate::Directory(
            match directory_metadata(path, listing@) {
                Err(e) => Err(e),
                Ok(fm) => match traverse(listing@) {
                    Err(e) => Err(e),
                    Ok(children) => Ok(item_of(path, fm, Some(children))),
                },
            },
        ),
        Node::File(text) => if is_document_name(entry.file_name@) {
            Candidate::Document(
                path,
                match document_metadata(text) {
                    Ok(fm) => Ok(item_of(path, fm, None)),
                    Err(e) => Err(e),
                },
            )
        } else {
            Candidate::Ignored
        },
    }
}

/// What each of `entries` offers, in the order in which they were listed.
pub open spec fn entry_candidates(entries: Seq<DirEntry>) -> Seq<Candidate>
    decreases entries, 0nat,
{
    Seq::new(
        entries.len(),
        |i: int|
            if 0 <= i < entries.len() {
                candidate(entries[i])
            } else {
                Candidate::Ignored
            },
    )
}

/// The offers `offers`, taken in the order `order` of their positions.
pub open spec fn arranged(offers: Seq<Candidate>, order: Seq<int>) -> Seq<Candidate> {
    Seq::new(order.len(), |p: int| offers[order[p]])
}

/// The items that `found` grows to when `offers` are taken in order. A
/// directory's item is always added. A document's item is added unless an
/// item with its stem as path is there already: then the document is passed
/// over, unread. The first failure of an offer that is not passed over ends
/// everything.
pub open spec fn collect(offers: Seq<Candidate>, found: Seq<MenuItemView>) -> Result<
    Seq<MenuItemView>,
    PreviewErrorView,
>
    decreases offers.len(),
{
    if offers.len() == 0 {
        Ok(found)
    } else {
        let rest = offers.drop_first();
        match offers[0] {
            Candidate::Ignored => collect(rest, found),
            Candidate::Directory(Ok(item)) => collect(rest, found.push(item)),
            Candidate::Directory(Err(e)) => Err(e),
            Candidate::Document(path, outcome) => if has_path(found, path) {
                collect(rest, found)
            } else {
                match outcome {
                    Ok(item) => collect(rest, found.push(item)),
                    Err(e) => Err(e),
                }
            },
        }
    }
}

/// The menu items of a directory with the entries `entries`: what they
/// offer, taken in the order of their file names.
pub open spec fn traverse(entries: Seq<DirEntry>) -> Result<Seq<MenuItemView>, PreviewErrorView>
    decreases entries, 1nat,
{
    collect(arranged(entry_candidates(entries), listing_order(entries)), Seq::empty())
}

/// What stands at one place of the content directory: the directory that
/// the path `<content directory>/<category>/<product>` leads to, with its
/// entries, or with what was said where it could not be listed, as when it
/// is no directory.
#[derive(Debug, PartialEq, Eq)]
pub struct Place {
    pub category: String,
    pub product: String,
    pub listing: Result<Vec<DirEntry>, String>,
}

/// The position of the first of `places` that belongs to `category` and
/// `product`, or the number of places where none does.
pub open spec fn place_index(places: Seq<Place>, category: Seq<char>, product: Seq<char>) -> int
    decreases places.len(),
{
    if places.len() == 0 || (places[0].category@ == category && places[0].product@ == product) {
        0
    } else {
        1 + place_index(places.drop_first(), category, product)
    }
}

/// `place_index` is the one position before which no place belongs to the
/// two names and at which, if it lies within `places`, a place does.
pub proof fn lemma_place_index(places: Seq<Place>, category: Seq<char>, product: Seq<char>)
    ensures
        0 <= place_index(places, category, product) <= places.len(),
        place_index(places, category, product) < places.len() ==> {
            let at = place_index(places, category, product);
            places[at].category@ == category && places[at].product@ == product
        },
        forall|i: int|
            0 <= i < place_index(places, category, product) ==> !((
            #[trigger] places[i]).category@ == category && places[i].product@ == product),
    decreases places.len(),
{
    if places.len() > 0 && !(places[0].category@ == category && places[0].product@ == product) {
        lemma_place_index(places.drop_first(), category, product);
        assert forall|i: int| 0 <= i < place_index(places, category, product) implies !((
        #[trigger] places[i]).category@ == category && places[i].product@ == product) by {
            if i > 0 {
                assert(places[i] == places.drop_first()[i - 1]);
            }
        }
    }
}

/// What stands at `<category>/<product>` in the content directory, as far
/// as `places` tell: the listing of the first place that belongs to the two
/// names, or nothing where no place does. Whether a path with several
/// segments or with dots leads anywhere is for the one who fills in the
/// places to find out.
pub open spec fn resolve(places: Seq<Place>, category: Seq<char>, product: Seq<char>) -> Option<
    Result<Vec<DirEntry>, String>,
> {
    let at = place_index(places, category, product);
    if at == places.len() {
        None
    } else {
        Some(places[at].listing)
    }
}

/// The menu items of a place: those of its entries, or failure, for the
/// reason that was given, where it was not listed.
pub open spec fn listed_items(listing: Result<Vec<DirEntry>, String>) -> Result<
    Seq<MenuItemView>,
    PreviewErrorView,
> {
    match listing {
        Ok(entries) => traverse(entries@),
        Err(cause) => Err(PreviewErrorView::IoFailure(cause@)),
    }
}

fn item_from(path: String, fm: FrontMatter, children: Option<Vec<MenuItem>>) -> (item: MenuItem)
    ensures
        item@ == item_of(
            path@,
            fm@,
            match children {
                Some(items) => Some(items_view(items@)),
                None => None,
            },
        ),
{
    MenuItem {
        name: fm.sidebar_title,
        visible_in_sidebar: fm.visible_in_sidebar,
        page_title: fm.page_title,
        path,
        order: fm.order,
        children,
    }
}

fn read_metadata(text: &Result<String, String>) -> (result: Result<FrontMatter, PreviewError>)
    ensures
        match result {
            Ok(fm) => document_metadata(*text) == Ok::<FrontMatterView, PreviewErrorView>(fm@),
            Err(e) => document_metadata(*text) == Err::<FrontMatterView, PreviewErrorView>(e@),
        },
{
    match text {
        Ok(t) => Ok(parse_document(t.as_str())),
        Err(cause) => Err(PreviewError::IoFailure(cause.clone())),
    }
}

fn read_directory_metadata(path: &Vec<char>, listing: &Vec<DirEntry>) -> (result: Result<
    FrontMatter,
    PreviewError,
>)
    ensures
        match result {
            Ok(fm) => directory_metadata(path@, listing@) == Ok::<
                FrontMatterView,
                PreviewErrorView,
            >(fm@),
            Err(e) => directory_metadata(path@, listing@) == Err::<
                FrontMatterView,
                PreviewErrorView,
            >(e@),
        },
{
    let mut name = string_of(path);
    name.append(".mdx");
    let at = find_entry(listing, &name);
    if at == listing.len() {
        let title = string_of(path);
        let page_title = string_of(path);
        Ok(
            FrontMatter {
                sidebar_title: Some(title),
                visible_in_sidebar: Some(true),
                page_title: Some(page_title),
                order: Some(0),
            },
        )
    } else {
        match &listing[at].node {
            Node::File(text) => read_metadata(text),
            Node::Directory(_) => Err(PreviewError::IoFailure(String::from_str("Is a directory"))),
        }
    }
}

fn directory_item(path: &Vec<char>, listing: &Vec<DirEntry>) -> (result: Result<
    MenuItem,
    PreviewError,
>)
    ensures
        match result {
            Ok(item) => directory_metadata(path@, listing@) is Ok && traverse(listing@) is Ok
                && item@ == item_of(
                path@,
                directory_metadata(path@, listing@)->Ok_0,
                Some(traverse(listing@)->Ok_0),
            ),
            Err(e) => if directory_metadata(path@, listing@) is Err {
                directory_metadata(path@, listing@)->Err_0 == e@
            } else {
                traverse(listing@) == Err::<Seq<MenuItemView>, PreviewErrorView>(e@)
            },
        },
    decreases listing, 1nat,
{
    let fm = match read_directory_metadata(path, listing) {
        Ok(fm) => fm,
        Err(e) => {
            return Err(e);
        },
    };
    let children = match traverse_directory(listing) {
        Ok(children) => children,
        Err(e) => {
            return Err(e);
        },
    };
    Ok(item_from(string_of(path), fm, Some(children)))
}

/// The menu items of a directory, given its entries in any order: one item
/// for each directory and for each document among them, in the order of
/// their file names, but none for a document whose stem is the path of an
/// item that came before it. Fails where a directory at or below this one
/// was not listed or a document that an item is made from was not read,
/// with what was said of the first such failure.
pub fn traverse_directory(entries: &Vec<DirEntry>) -> (result: Result<Vec<MenuItem>, PreviewError>)
    ensures
        match result {
            Ok(items) => traverse(entries@) == Ok::<Seq<MenuItemView>, PreviewErrorView>(
                items_view(items@),
            ),
            Err(e) => traverse(entries@) == Err::<Seq<MenuItemView>, PreviewErrorView>(e@),
        },
    decreases entries, 0nat,
{
    let order = sort_entries(entries);
    let ghost offers = arranged(entry_candidates(entries@), positions(order@));
    let mut found: Vec<MenuItem> = Vec::new();
    let mut p: usize = 0;
    assert(offers.skip(0) =~= offers);
    assert(items_view(found@) =~= Seq::<MenuItemView>::empty());
    while p < order.len()
        invariant
            p <= order.len() == entries.len(),
            positions(order@) == listing_order(entries@),
            forall|q: int| 0 <= q < order.len() ==> #[trigger] order@[q] < entries.len(),
            offers == arranged(entry_candidates(entries@), positions(order@)),
            collect(offers.skip(p as int), items_view(found@)) == traverse(entries@),
        decreases order.len() - p,
    {
        let entry = &entries[order[p]];
        assert(offers.skip(p as int)[0] == candidate(*entry));
        assert(offers.skip(p as int).drop_first() =~= offers.skip(p + 1));
        let name = chars_of(entry.file_name.as_str());
        let path = stem_chars(&name);
        match &entry.node {
            Node::Directory(Err(cause)) => {
                return Err(PreviewError::IoFailure(cause.clone()));
            },
            Node::Directory(Ok(listing)) => {
                match directory_item(&path, listing) {
                    Ok(item) => {
                        assert(items_view(found@.push(item)) =~= items_view(found@).push(item@));
                        found.push(item);
                    },
                    Err(e) => {
                        return Err(e);
                    },
                }
            },
            Node::File(text) => {
                if is_document_chars(&name) {
                    let path_text = string_of(&path);
                    if find_path(&found, &path_text) == found.len() {
                        match read_metadata(text) {
                            Ok(fm) => {
                                let item = item_from(path_text, fm, None);
                                assert(items_view(found@.push(item)) =~= items_view(found@).push(
                                    item@,
                                ));
                                found.push(item);
                            },
                            Err(e) => {
                                return Err(e);
                            },
                        }
                    }
                }
            },
        }
        p += 1;
    }
    Ok(found)
}

/// The position of the first of `places` that belongs to `category` and
/// `product`, or the number of places where none does.
pub fn find_place(places: &Vec<Place>, category: &String, product: &String) -> (at: usize)
    ensures
        at == place_index(places@, category@, product@),
        at <= places.len(),
{
    let mut at: usize = 0;
    assert(places@.skip(0) =~= places@);
    while at < places.len() && !(places[at].category == *category && places[at].product
        == *product)
        invariant
            at <= places.len(),
            place_index(places@, category@, product@) == at + place_index(
                places@.skip(at as int),
                category@,
                product@,
            ),
        decreases places.len() - at,
    {
        assert(places@.skip(at as int).drop_first() =~= places@.skip(at + 1));
        at += 1;
    }
    at
}

/// The menu items of a place.
pub fn items_of_listing(listing: &Result<Vec<DirEntry>, String>) -> (result: Result<
    Vec<MenuItem>,
    PreviewError,
>)
    ensures
        match result {
            Ok(items) => listed_items(*listing) == Ok::<Seq<MenuItemView>, PreviewErrorView>(
                items_view(items@),
            ),
            Err(e) => listed_items(*listing) == Err::<Seq<MenuItemView>, PreviewErrorView>(e@),
        },
{
    match listing {
        Ok(entries) => traverse_directory(entries),
        Err(cause) => Err(PreviewError::IoFailure(cause.clone())),
    }
}

} // verus!
