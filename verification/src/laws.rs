//! What holds of every traversal and of every build.

use crate::assemble::{
    build, lemma_failing_child, lemma_failing_entry, rebuilt_child, rebuilt_entry,
};
use crate::content::{
    arranged, candidate, collect, directory_metadata, entry_candidates, entry_index, entry_names,
    index_name, lemma_entry_index,
    is_document_name, listing_order, stem, traverse, Candidate, DirEntry, Node, Place,
};
use crate::error::PreviewErrorView;
use crate::menu::{has_path, lemma_path_index, EndpointsView, MenuItemView};
use crate::order::{
    comes_before, is_arrangement, lemma_arrangement_is_injective, lemma_beginning_comes_first,
    lemma_name_le_antisymmetric, lemma_name_le_reflexive, lemma_sorted_order, name_le,
};
use crate::text::{first_index, lemma_first_index};
use vstd::prelude::*;

verus! {

/// Whether the entry is a document: a file with a document's name.
pub open spec fn is_document(entry: DirEntry) -> bool {
    entry.node is File && is_document_name(entry.file_name@)
}

/// Whether the item at position `k` has the path `path` and no other of
/// `items` has it.
pub open spec fn is_only_with_path(items: Seq<MenuItemView>, k: int, path: Seq<char>) -> bool {
    &&& 0 <= k < items.len()
    &&& items[k].path == path
    &&& forall|m: int| 0 <= m < items.len() && m != k ==> (#[trigger] items[m]).path != path
}

/// What `entries` offer, in the order in which they are gone through.
pub open spec fn offers_in_order(entries: Seq<DirEntry>) -> Seq<Candidate> {
    arranged(entry_candidates(entries), listing_order(entries))
}

spec fn well_formed(offer: Candidate) -> bool {
    match offer {
        Candidate::Document(path, Ok(item)) => item.path == path && item.children is None,
        Candidate::Directory(Ok(item)) => item.children is Some,
        _ => true,
    }
}

spec fn adds_directory(offer: Candidate, path: Seq<char>) -> bool {
    offer matches Candidate::Directory(Ok(item)) && item.path == path
}

spec fn is_document_for(offer: Candidate, path: Seq<char>) -> bool {
    offer matches Candidate::Document(stem, _) && stem == path
}

proof fn lemma_candidate(entry: DirEntry)
    ensures
        well_formed(candidate(entry)),
        candidate(entry) is Directory <==> entry.node is Directory,
        candidate(entry) is Document <==> is_document(entry),
        candidate(entry) matches Candidate::Directory(Ok(item)) ==> item.path == stem(
            entry.file_name@,
        ),
        candidate(entry) matches Candidate::Document(path, _) ==> path == stem(entry.file_name@),
{
}

proof fn lemma_offers_in_order(entries: Seq<DirEntry>)
    ensures
        is_arrangement(listing_order(entries), entry_names(entries), entries.len() as int),
        offers_in_order(entries).len() == entries.len(),
        forall|p: int|
            0 <= p < entries.len() ==> #[trigger] offers_in_order(entries)[p] == candidate(
                entries[listing_order(entries)[p]],
            ),
        forall|p: int|
            0 <= p < entries.len() ==> well_formed(#[trigger] offers_in_order(entries)[p]),
{
    lemma_sorted_order(entry_names(entries), entries.len());
    let order = listing_order(entries);
    assert forall|p: int| 0 <= p < entries.len() implies #[trigger] offers_in_order(entries)[p]
        == candidate(entries[order[p]]) && well_formed(offers_in_order(entries)[p]) by {
        lemma_candidate(entries[order[p]]);
    }
}

proof fn lemma_collect_extends(
    offers: Seq<Candidate>,
    found: Seq<MenuItemView>,
    items: Seq<MenuItemView>,
)
    requires
        collect(offers, found) == Ok::<Seq<MenuItemView>, PreviewErrorView>(items),
    ensures
        found.len() <= items.len(),
        forall|m: int| 0 <= m < found.len() ==> #[trigger] items[m] == found[m],
    decreases offers.len(),
{
    if offers.len() > 0 {
        let rest = offers.drop_first();
        match offers[0] {
            Candidate::Ignored => {
                lemma_collect_extends(rest, found, items);
            },
            Candidate::Directory(Ok(item)) => {
                lemma_collect_extends(rest, found.push(item), items);
            },
            Candidate::Directory(Err(_)) => {},
            Candidate::Document(path, outcome) => {
                if has_path(found, path) {
                    lemma_collect_extends(rest, found, items);
                } else {
                    match outcome {
                        Ok(item) => {
                            lemma_collect_extends(rest, found.push(item), items);
                        },
                        Err(_) => {},
                    }
                }
            },
        }
    }
}

proof fn lemma_collect_lists_directory(
    offers: Seq<Candidate>,
    found: Seq<MenuItemView>,
    p: int,
    items: Seq<MenuItemView>,
)
    requires
        0 <= p < offers.len(),
        offers[p] is Directory,
        collect(offers, found) == Ok::<Seq<MenuItemView>, PreviewErrorView>(items),
    ensures
        offers[p] matches Candidate::Directory(Ok(item)) && items.contains(item),
    decreases offers.len(),
{
    let rest = offers.drop_first();
    if p == 0 {
        match offers[0] {
            Candidate::Directory(Ok(item)) => {
                lemma_collect_extends(rest, found.push(item), items);
                assert(items[found.len() as int] == found.push(item)[found.len() as int]);
            },
            _ => {},
        }
    } else {
        match offers[0] {
            Candidate::Ignored => {
                lemma_collect_lists_directory(rest, found, p - 1, items);
            },
            Candidate::Directory(Ok(item)) => {
                lemma_collect_lists_directory(rest, found.push(item), p - 1, items);
            },
            Candidate::Directory(Err(_)) => {},
            Candidate::Document(path, outcome) => {
                if has_path(found, path) {
                    lemma_collect_lists_directory(rest, found, p - 1, items);
                } else {
                    match outcome {
                        Ok(item) => {
                            lemma_collect_lists_directory(rest, found.push(item), p - 1, items);
                        },
                        Err(_) => {},
                    }
                }
            },
        }
    }
}

proof fn lemma_collect_keeps_one(
    offers: Seq<Candidate>,
    found: Seq<MenuItemView>,
    path: Seq<char>,
    k: int,
    items: Seq<MenuItemView>,
)
    requires
        forall|p: int| 0 <= p < offers.len() ==> well_formed(#[trigger] offers[p]),
        forall|p: int| 0 <= p < offers.len() ==> !adds_directory(#[trigger] offers[p], path),
        is_only_with_path(found, k, path),
        collect(offers, found) == Ok::<Seq<MenuItemView>, PreviewErrorView>(items),
    ensures
        is_only_with_path(items, k, path),
        items[k] == found[k],
    decreases offers.len(),
{
    if offers.len() > 0 {
        let rest = offers.drop_first();
        match offers[0] {
            Candidate::Ignored => {
                lemma_collect_keeps_one(rest, found, path, k, items);
            },
            Candidate::Directory(Ok(item)) => {
                lemma_collect_keeps_one(rest, found.push(item), path, k, items);
            },
            Candidate::Directory(Err(_)) => {},
            Candidate::Document(stem, outcome) => {
                lemma_path_index(found, stem);
                if has_path(found, stem) {
                    lemma_collect_keeps_one(rest, found, path, k, items);
                } else {
                    match outcome {
                        Ok(item) => {
                            lemma_collect_keeps_one(rest, found.push(item), path, k, items);
                        },
                        Err(_) => {},
                    }
                }
            },
        }
    }
}

proof fn lemma_collect_reaches_directory(
    offers: Seq<Candidate>,
    found: Seq<MenuItemView>,
    path: Seq<char>,
    at: int,
    items: Seq<MenuItemView>,
)
    requires
        forall|p: int| 0 <= p < offers.len() ==> well_formed(#[trigger] offers[p]),
        0 <= at < offers.len(),
        offers[at] is Directory,
        offers[at] matches Candidate::Directory(Ok(item)) ==> item.path == path,
        forall|p: int|
            0 <= p < offers.len() && p != at ==> !adds_directory(#[trigger] offers[p], path),
        forall|p: int| 0 <= p < at ==> !is_document_for(#[trigger] offers[p], path),
        forall|m: int| 0 <= m < found.len() ==> (#[trigger] found[m]).path != path,
        collect(offers, found) == Ok::<Seq<MenuItemView>, PreviewErrorView>(items),
    ensures
        exists|k: int| is_only_with_path(items, k, path) && items[k].children is Some,
    decreases offers.len(),
{
    let rest = offers.drop_first();
    if at == 0 {
        match offers[0] {
            Candidate::Directory(Ok(item)) => {
                lemma_collect_keeps_one(rest, found.push(item), path, found.len() as int, items);
            },
            _ => {},
        }
    } else {
        match offers[0] {
            Candidate::Ignored => {
                lemma_collect_reaches_directory(rest, found, path, at - 1, items);
            },
            Candidate::Directory(Ok(item)) => {
                lemma_collect_reaches_directory(rest, found.push(item), path, at - 1, items);
            },
            Candidate::Directory(Err(_)) => {},
            Candidate::Document(stem, outcome) => {
                if has_path(found, stem) {
                    lemma_collect_reaches_directory(rest, found, path, at - 1, items);
                } else {
                    match outcome {
                        Ok(item) => {
                            lemma_collect_reaches_directory(
                                rest,
                                found.push(item),
                                path,
                                at - 1,
                                items,
                            );
                        },
                        Err(_) => {},
                    }
                }
            },
        }
    }
}

/// A directory that holds no document named after it is listed with
/// metadata of its own making: in the items of the directory that holds it
/// stands an item with its stem for path, name and page title, shown, with
/// the order 0, and with children.
pub proof fn lemma_directory_without_document(
    entries: Seq<DirEntry>,
    d: int,
    items: Seq<MenuItemView>,
)
    requires
        0 <= d < entries.len(),
        entries[d].node matches Node::Directory(Ok(listing)) && entry_index(
            listing@,
            index_name(stem(entries[d].file_name@)),
        ) == listing@.len(),
        traverse(entries) == Ok::<Seq<MenuItemView>, PreviewErrorView>(items),
    ensures
        exists|k: int|
            0 <= k < items.len() && (#[trigger] items[k]).path == stem(entries[d].file_name@)
                && items[k].name == Some(stem(entries[d].file_name@)) && items[k].page_title
                == Some(stem(entries[d].file_name@)) && items[k].visible_in_sidebar == Some(true)
                && items[k].order == Some(0i32) && items[k].children is Some,
{
    lemma_offers_in_order(entries);
    let order = listing_order(entries);
    let offers = offers_in_order(entries);
    assert(order.contains(d));
    let at = choose|p: int| 0 <= p < order.len() && order[p] == d;
    lemma_collect_lists_directory(offers, Seq::empty(), at, items);
}

/// A directory stands for its stem alone. Where, among the entries of one
/// directory, `d` is the only directory with its stem and every document
/// with that stem has its place after `d`, the items hold exactly one item
/// with that stem for path, and it has children. The order in which the
/// entries were listed plays no part in this.
pub proof fn lemma_directory_stands_for_stem(
    entries: Seq<DirEntry>,
    d: int,
    items: Seq<MenuItemView>,
)
    requires
        0 <= d < entries.len(),
        entries[d].node is Directory,
        forall|j: int|
            0 <= j < entries.len() && j != d && (#[trigger] entries[j]).node is Directory ==> stem(
                entries[j].file_name@,
            ) != stem(entries[d].file_name@),
        forall|j: int|
            0 <= j < entries.len() && is_document(#[trigger] entries[j]) && stem(
                entries[j].file_name@,
            ) == stem(entries[d].file_name@) ==> comes_before(entry_names(entries), d, j),
        traverse(entries) == Ok::<Seq<MenuItemView>, PreviewErrorView>(items),
    ensures
        exists|k: int|
            is_only_with_path(items, k, stem(entries[d].file_name@)) && items[k].children is Some,
{
    lemma_offers_in_order(entries);
    let names = entry_names(entries);
    let order = listing_order(entries);
    let offers = offers_in_order(entries);
    let path = stem(entries[d].file_name@);
    assert(order.contains(d));
    let at = choose|p: int| 0 <= p < order.len() && order[p] == d;
    lemma_candidate(entries[d]);
    assert forall|p: int| 0 <= p < offers.len() && p != at implies !adds_directory(
        #[trigger] offers[p],
        path,
    ) by {
        let j = order[p];
        lemma_candidate(entries[j]);
        if j == d {
            lemma_arrangement_is_injective(order, names, p, at);
        }
    }
    assert forall|p: int| 0 <= p < at implies !is_document_for(#[trigger] offers[p], path) by {
        let j = order[p];
        lemma_candidate(entries[j]);
        if is_document_for(offers[p], path) {
            lemma_name_le_antisymmetric(names[d], names[j]);
        }
    }
    lemma_collect_reaches_directory(offers, Seq::empty(), path, at, items);
}

/// A directory whose name holds no dot comes before every document of its
/// stem, which is its name. So where it is the only directory with that
/// stem, the items hold exactly one item with its name for path, and it has
/// children, whatever documents stand beside it.
pub proof fn lemma_plain_directory_stands_for_stem(
    entries: Seq<DirEntry>,
    d: int,
    items: Seq<MenuItemView>,
)
    requires
        0 <= d < entries.len(),
        entries[d].node is Directory,
        first_index(entries[d].file_name@, '.') == entries[d].file_name@.len(),
        forall|j: int|
            0 <= j < entries.len() && j != d && (#[trigger] entries[j]).node is Directory ==> stem(
                entries[j].file_name@,
            ) != entries[d].file_name@,
        traverse(entries) == Ok::<Seq<MenuItemView>, PreviewErrorView>(items),
    ensures
        exists|k: int|
            is_only_with_path(items, k, entries[d].file_name@) && items[k].children is Some,
{
    let name = entries[d].file_name@;
    assert(stem(name) =~= name);
    assert forall|j: int|
        0 <= j < entries.len() && is_document(#[trigger] entries[j]) && stem(
            entries[j].file_name@,
        ) == stem(name) implies comes_before(entry_names(entries), d, j) by {
        let other = entries[j].file_name@;
        lemma_first_index(other, '.');
        lemma_beginning_comes_first(other, first_index(other, '.'));
        if other == name {
            reveal_strlit(".mdx");
            assert(other.skip(other.len() - 4)[0] == '.');
        }
    }
    lemma_directory_stands_for_stem(entries, d, items);
}

spec fn new_where_leaf(items: Seq<MenuItemView>) -> bool {
    forall|k: int, m: int|
        0 <= k < m < items.len() && (#[trigger] items[m]).children is None ==> items[m].path != (
        #[trigger] items[k]).path
}

proof fn lemma_collect_leaves_are_new(
    offers: Seq<Candidate>,
    found: Seq<MenuItemView>,
    items: Seq<MenuItemView>,
)
    requires
        forall|p: int| 0 <= p < offers.len() ==> well_formed(#[trigger] offers[p]),
        new_where_leaf(found),
        collect(offers, found) == Ok::<Seq<MenuItemView>, PreviewErrorView>(items),
    ensures
        new_where_leaf(items),
    decreases offers.len(),
{
    if offers.len() > 0 {
        let rest = offers.drop_first();
        match offers[0] {
            Candidate::Ignored => {
                lemma_collect_leaves_are_new(rest, found, items);
            },
            Candidate::Directory(Ok(item)) => {
                lemma_collect_leaves_are_new(rest, found.push(item), items);
            },
            Candidate::Directory(Err(_)) => {},
            Candidate::Document(stem, outcome) => {
                if has_path(found, stem) {
                    lemma_collect_leaves_are_new(rest, found, items);
                } else {
                    match outcome {
                        Ok(item) => {
                            lemma_path_index(found, stem);
                            lemma_collect_leaves_are_new(rest, found.push(item), items);
                        },
                        Err(_) => {},
                    }
                }
            },
        }
    }
}

/// An item without children never has the path of an item before it: a
/// document whose stem is taken is passed over. Two items with children may
/// share a path, and so may a document and a directory that comes after it.
pub proof fn lemma_leaf_paths_are_new(
    entries: Seq<DirEntry>,
    items: Seq<MenuItemView>,
    k: int,
    m: int,
)
    requires
        traverse(entries) == Ok::<Seq<MenuItemView>, PreviewErrorView>(items),
        0 <= k < m < items.len(),
        items[m].children is None,
    ensures
        items[m].path != items[k].path,
{
    lemma_offers_in_order(entries);
    lemma_collect_leaves_are_new(offers_in_order(entries), Seq::empty(), items);
}

/// Whether no two of `entries` have one file name, as it is in a directory.
pub open spec fn names_differ(entries: Seq<DirEntry>) -> bool {
    forall|i: int, j: int|
        0 <= i < j < entries.len() ==> (#[trigger] entries[i]).file_name@ != (
        #[trigger] entries[j]).file_name@
}

/// Whether each of `a` is one of `b`.
pub open spec fn all_among(a: Seq<DirEntry>, b: Seq<DirEntry>) -> bool {
    forall|i: int| 0 <= i < a.len() ==> b.contains(#[trigger] a[i])
}

spec fn entry_at(entries: Seq<DirEntry>, p: int) -> DirEntry {
    entries[listing_order(entries)[p]]
}

proof fn lemma_place_of(entries: Seq<DirEntry>, entry: DirEntry) -> (p: int)
    requires
        entries.contains(entry),
    ensures
        0 <= p < entries.len(),
        entry_at(entries, p) == entry,
{
    lemma_offers_in_order(entries);
    let order = listing_order(entries);
    let i = choose|i: int| 0 <= i < entries.len() && entries[i] == entry;
    assert(order.contains(i));
    choose|p: int| 0 <= p < order.len() && order[p] == i
}

proof fn lemma_places_differ(entries: Seq<DirEntry>, p: int, q: int)
    requires
        names_differ(entries),
        0 <= p < entries.len(),
        0 <= q < entries.len(),
        entry_at(entries, p).file_name@ == entry_at(entries, q).file_name@,
    ensures
        p == q,
{
    lemma_offers_in_order(entries);
    let order = listing_order(entries);
    if order[p] == order[q] {
        lemma_arrangement_is_injective(order, entry_names(entries), p, q);
    }
}

proof fn lemma_places_ascend(entries: Seq<DirEntry>, p: int, q: int)
    requires
        0 <= p <= q < entries.len(),
    ensures
        name_le(entry_at(entries, p).file_name@, entry_at(entries, q).file_name@),
{
    lemma_offers_in_order(entries);
    if p == q {
        lemma_name_le_reflexive(entry_at(entries, p).file_name@);
    }
}

proof fn lemma_same_place(a: Seq<DirEntry>, b: Seq<DirEntry>, p: int)
    requires
        a.len() == b.len(),
        all_among(a, b),
        all_among(b, a),
        names_differ(a),
        names_differ(b),
        0 <= p < a.len(),
    ensures
        entry_at(a, p) == entry_at(b, p),
    decreases p,
{
    lemma_offers_in_order(a);
    lemma_offers_in_order(b);
    assert forall|q: int| 0 <= q < p implies entry_at(a, q) == entry_at(b, q) by {
        lemma_same_place(a, b, q);
    }
    let mine = entry_at(a, p);
    let theirs = entry_at(b, p);
    let q = lemma_place_of(b, mine);
    let r = lemma_place_of(a, theirs);
    if q < p {
        lemma_places_differ(a, q, p);
    }
    if r < p {
        lemma_places_differ(b, r, p);
    }
    lemma_places_ascend(a, p, r);
    lemma_places_ascend(b, p, q);
    lemma_name_le_antisymmetric(mine.file_name@, theirs.file_name@);
    lemma_places_differ(a, p, r);
}

/// The order in which a directory was listed plays no part: two listings
/// that hold the same entries, no two of one name, give the same items.
pub proof fn lemma_listing_order_is_immaterial(a: Seq<DirEntry>, b: Seq<DirEntry>)
    requires
        a.len() == b.len(),
        all_among(a, b),
        all_among(b, a),
        names_differ(a),
        names_differ(b),
    ensures
        traverse(a) == traverse(b),
{
    lemma_offers_in_order(a);
    lemma_offers_in_order(b);
    assert forall|p: int| 0 <= p < a.len() implies offers_in_order(a)[p] == offers_in_order(
        b,
    )[p] by {
        lemma_same_place(a, b, p);
    }
    assert(offers_in_order(a) =~= offers_in_order(b));
}

/// Whether the same was read of two files, or said of two failures.
pub open spec fn same_outcome(a: Result<String, String>, b: Result<String, String>) -> bool {
    match (a, b) {
        (Ok(s), Ok(t)) => s@ == t@,
        (Err(c), Err(d)) => c@ == d@,
        _ => false,
    }
}

/// Whether two entries are the same but for the order in which the
/// directories at and below them were listed.
#[verifier::opaque]
pub open spec fn alike(a: DirEntry, b: DirEntry) -> bool
    decreases a, 0nat,
{
    &&& a.file_name@ == b.file_name@
    &&& match a.node {
        Node::File(s) => b.node matches Node::File(t) && same_outcome(s, t),
        Node::Directory(Err(c)) => b.node matches Node::Directory(Err(d)) && c@ == d@,
        Node::Directory(Ok(l)) => b.node matches Node::Directory(Ok(m)) && same_listing(l@, m@),
    }
}

/// Whether one of `b` is like `entry`.
pub open spec fn has_like(entry: DirEntry, b: Seq<DirEntry>) -> bool
    decreases entry, 1nat,
{
    exists|j: int| 0 <= j < b.len() && alike(entry, #[trigger] b[j])
}

/// Whether one of `a` is like `entry`.
pub open spec fn is_like_one_of(a: Seq<DirEntry>, entry: DirEntry) -> bool
    decreases a, 1nat,
{
    exists|i: int| 0 <= i < a.len() && alike(#[trigger] a[i], entry)
}

/// Whether `a` and `b` are two listings of one directory tree: no two
/// entries of one name in either, each entry of the one like an entry of
/// the other, and so for every directory below. Only the order in which
/// each directory yields its entries may differ.
pub open spec fn same_listing(a: Seq<DirEntry>, b: Seq<DirEntry>) -> bool
    decreases a, 2nat,
{
    &&& a.len() == b.len()
    &&& names_differ(a)
    &&& names_differ(b)
    &&& forall|i: int| 0 <= i < a.len() ==> has_like(#[trigger] a[i], b)
    &&& forall|j: int| 0 <= j < b.len() ==> is_like_one_of(a, #[trigger] b[j])
}

proof fn lemma_one_of_a_name(entries: Seq<DirEntry>, i: int, j: int)
    requires
        names_differ(entries),
        0 <= i < entries.len(),
        0 <= j < entries.len(),
        entries[i].file_name@ == entries[j].file_name@,
    ensures
        i == j,
{
}

proof fn lemma_like_metadata(stem: Seq<char>, a: Seq<DirEntry>, b: Seq<DirEntry>)
    requires
        same_listing(a, b),
    ensures
        directory_metadata(stem, a) == directory_metadata(stem, b),
{
    reveal(alike);
    let name = index_name(stem);
    lemma_entry_index(a, name);
    lemma_entry_index(b, name);
    let i = entry_index(a, name);
    let j = entry_index(b, name);
    if i < a.len() {
        assert(has_like(a[i], b));
        let k = choose|k: int| 0 <= k < b.len() && alike(a[i], #[trigger] b[k]);
        if j < b.len() {
            lemma_one_of_a_name(b, j, k);
        } else {
            assert(b[k].file_name@ != name);
        }
    } else if j < b.len() {
        assert(is_like_one_of(a, b[j]));
        let k = choose|k: int| 0 <= k < a.len() && alike(#[trigger] a[k], b[j]);
        assert(a[k].file_name@ != name);
    }
}

proof fn lemma_like_place(a: Seq<DirEntry>, b: Seq<DirEntry>, p: int)
    requires
        same_listing(a, b),
        0 <= p < a.len(),
    ensures
        alike(entry_at(a, p), entry_at(b, p)),
    decreases p,
{
    reveal(alike);
    lemma_offers_in_order(a);
    lemma_offers_in_order(b);
    assert forall|q: int| 0 <= q < p implies entry_at(a, q).file_name@ == entry_at(
        b,
        q,
    ).file_name@ by {
        lemma_like_place(a, b, q);
    }
    let mine = entry_at(a, p);
    let theirs = entry_at(b, p);
    let i = listing_order(a)[p];
    let j = listing_order(b)[p];
    assert(0 <= i < a.len() && mine == a[i]);
    assert(0 <= j < b.len() && theirs == b[j]);
    assert(has_like(a[i], b));
    let partner = choose|k: int| 0 <= k < b.len() && alike(mine, #[trigger] b[k]);
    assert(is_like_one_of(a, b[j]));
    let other = choose|k: int| 0 <= k < a.len() && alike(#[trigger] a[k], theirs);
    let q = lemma_place_of(b, b[partner]);
    let r = lemma_place_of(a, a[other]);
    if q < p {
        lemma_places_differ(a, q, p);
    }
    if r < p {
        lemma_places_differ(b, r, p);
    }
    lemma_places_ascend(a, p, r);
    lemma_places_ascend(b, p, q);
    lemma_name_le_antisymmetric(mine.file_name@, theirs.file_name@);
    lemma_one_of_a_name(b, partner, j);
}

proof fn lemma_alike(a: DirEntry, b: DirEntry)
    requires
        alike(a, b),
    ensures
        a.file_name@ == b.file_name@,
        match a.node {
            Node::File(s) => b.node matches Node::File(t) && same_outcome(s, t),
            Node::Directory(Err(c)) => b.node matches Node::Directory(Err(d)) && c@ == d@,
            Node::Directory(Ok(l)) => b.node matches Node::Directory(Ok(m)) && same_listing(
                l@,
                m@,
            ),
        },
{
    reveal(alike);
}

proof fn lemma_like_offer(a: DirEntry, b: DirEntry)
    requires
        alike(a, b),
    ensures
        candidate(a) == candidate(b),
    decreases a, 0nat,
{
    lemma_alike(a, b);
    match a.node {
        Node::Directory(Ok(l)) => {
            let m = b.node->Directory_0->Ok_0;
            lemma_like_metadata(stem(a.file_name@), l@, m@);
            lemma_tree_order_is_immaterial(l@, m@);
        },
        _ => {},
    }
}

/// The order in which the directories of a tree were listed plays no part,
/// at any depth: two listings of one tree give the same items, item for
/// item and in the same order, or the same failure.
pub proof fn lemma_tree_order_is_immaterial(a: Seq<DirEntry>, b: Seq<DirEntry>)
    requires
        same_listing(a, b),
    ensures
        traverse(a) == traverse(b),
    decreases a, 1nat,
{
    lemma_offers_in_order(a);
    lemma_offers_in_order(b);
    assert forall|p: int| 0 <= p < a.len() implies offers_in_order(a)[p] == offers_in_order(
        b,
    )[p] by {
        lemma_like_place(a, b, p);
        assert(0 <= listing_order(a)[p] < a.len());
        lemma_like_offer(entry_at(a, p), entry_at(b, p));
    }
    assert(offers_in_order(a) =~= offers_in_order(b));
}

/// Building twice from one skeleton and the same places gives one result.
pub proof fn lemma_build_repeats(
    doc: EndpointsView,
    places: Seq<Place>,
    first: Result<EndpointsView, PreviewErrorView>,
    second: Result<EndpointsView, PreviewErrorView>,
)
    requires
        first == build(doc, places),
        second == build(doc, places),
    ensures
        first == second,
{
}

proof fn lemma_rebuilt_child_settles(places: Seq<Place>, category: Seq<char>, child: MenuItemView)
    requires
        rebuilt_child(places, category, child) is Ok,
    ensures
        rebuilt_child(places, category, rebuilt_child(places, category, child)->Ok_0) == rebuilt_child(
            places,
            category,
            child,
        ),
{
}

proof fn lemma_rebuilt_entry_settles(places: Seq<Place>, entry: MenuItemView)
    requires
        rebuilt_entry(places, entry) is Ok,
    ensures
        rebuilt_entry(places, rebuilt_entry(places, entry)->Ok_0) == rebuilt_entry(places, entry),
{
    let after = rebuilt_entry(places, entry)->Ok_0;
    match entry.children {
        None => {},
        Some(children) => {
            lemma_failing_child(places, entry.path, children);
            let rebuilt = after.children->Some_0;
            assert forall|j: int| 0 <= j < rebuilt.len() implies #[trigger] rebuilt_child(
                places,
                after.path,
                rebuilt[j],
            ) == Ok::<MenuItemView, PreviewErrorView>(rebuilt[j]) by {
                assert(rebuilt_child(places, entry.path, children[j]) is Ok);
                lemma_rebuilt_child_settles(places, entry.path, children[j]);
            }
            lemma_failing_child(places, after.path, rebuilt);
            assert(Seq::new(
                rebuilt.len(),
                |j: int| rebuilt_child(places, after.path, rebuilt[j])->Ok_0,
            ) =~= rebuilt);
        },
    }
}

/// A menu document that was built is a skeleton that builds into itself:
/// building again from the result, over the same places, changes nothing.
pub proof fn lemma_build_settles(doc: EndpointsView, places: Seq<Place>)
    requires
        build(doc, places) is Ok,
    ensures
        build(build(doc, places)->Ok_0, places) == build(doc, places),
{
    let after = build(doc, places)->Ok_0;
    lemma_failing_entry(places, doc.home);
    assert forall|i: int| 0 <= i < after.home.len() implies #[trigger] rebuilt_entry(
        places,
        after.home[i],
    ) == Ok::<MenuItemView, PreviewErrorView>(after.home[i]) by {
        assert(rebuilt_entry(places, doc.home[i]) is Ok);
        lemma_rebuilt_entry_settles(places, doc.home[i]);
    }
    lemma_failing_entry(places, after.home);
    assert(Seq::new(after.home.len(), |i: int| rebuilt_entry(places, after.home[i])->Ok_0)
        =~= after.home);
}

} // verus!
