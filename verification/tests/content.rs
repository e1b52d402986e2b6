use docter_preview::content::{
    find_entry, find_place, items_of_listing, needs_text, traverse_directory, DirEntry, Node, Place,
};
use docter_preview::error::PreviewError;
use docter_preview::extension::DocterPreviewExtension;
use docter_preview::menu::MenuItem;

fn dir(name: &str, entries: Vec<DirEntry>) -> DirEntry {
    DirEntry { file_name: name.to_string(), node: Node::Directory(Ok(entries)) }
}

fn unlisted_dir(name: &str) -> DirEntry {
    DirEntry { file_name: name.to_string(), node: Node::Directory(Err("Permission denied (os error 13)".to_string())) }
}

fn file(name: &str, text: &str) -> DirEntry {
    DirEntry { file_name: name.to_string(), node: Node::File(Ok(text.to_string())) }
}

fn unread(name: &str) -> DirEntry {
    DirEntry { file_name: name.to_string(), node: Node::File(Err(format!("cannot read {}", name))) }
}

fn leaf(path: &str) -> MenuItem {
    MenuItem {
        name: None,
        visible_in_sidebar: None,
        page_title: None,
        path: path.to_string(),
        order: None,
        children: None,
    }
}

fn synthesized(path: &str, children: Vec<MenuItem>) -> MenuItem {
    MenuItem {
        name: Some(path.to_string()),
        visible_in_sidebar: Some(true),
        page_title: Some(path.to_string()),
        path: path.to_string(),
        order: Some(0),
        children: Some(children),
    }
}

fn paths(items: &Vec<MenuItem>) -> Vec<String> {
    let mut out = Vec::new();
    for item in items {
        out.push(item.path.clone());
    }
    out
}

#[test]
fn empty_directory_gives_no_items() {
    assert_eq!(traverse_directory(&vec![]), Ok(vec![]));
}

#[test]
fn directory_without_document_gets_synthesized_metadata() {
    let items = traverse_directory(&vec![dir("guides", vec![file("intro.mdx", "# Intro")])]);
    assert_eq!(items, Ok(vec![synthesized("guides", vec![leaf("intro")])]));
}

#[test]
fn empty_subdirectory_has_empty_children() {
    let items = traverse_directory(&vec![dir("empty", vec![])]).unwrap();
    assert_eq!(items, vec![synthesized("empty", vec![])]);
    assert_eq!(items[0].children, Some(vec![]));
}

#[test]
fn directory_takes_metadata_from_document_named_after_it() {
    let text = "---\nsidebar_title: Guides\npage_title: All guides\nvisible_in_sidebar: false\norder: 3\n---\n";
    let items = traverse_directory(&vec![dir("guides", vec![file("guides.mdx", text)])]).unwrap();
    assert_eq!(items.len(), 1);
    assert_eq!(items[0].name, Some("Guides".to_string()));
    assert_eq!(items[0].page_title, Some("All guides".to_string()));
    assert_eq!(items[0].visible_in_sidebar, Some(false));
    assert_eq!(items[0].order, Some(3));
    assert_eq!(items[0].path, "guides");
    let children = items[0].children.as_ref().unwrap();
    assert_eq!(children.len(), 1);
    assert_eq!(children[0].path, "guides");
    assert_eq!(children[0].name, Some("Guides".to_string()));
    assert_eq!(children[0].children, None);
}

#[test]
fn directory_with_document_without_metadata_has_absent_fields() {
    let items = traverse_directory(&vec![dir("api", vec![file("api.mdx", "plain")])]).unwrap();
    assert_eq!(items[0].name, None);
    assert_eq!(items[0].visible_in_sidebar, None);
    assert_eq!(items[0].page_title, None);
    assert_eq!(items[0].order, None);
    assert_eq!(items[0].path, "api");
}

#[test]
fn document_becomes_leaf_with_its_metadata() {
    let items = traverse_directory(&vec![file("start.mdx", "---\nsidebar_title: Start\norder: 1\n---\n")]);
    assert_eq!(
        items,
        Ok(vec![MenuItem {
            name: Some("Start".to_string()),
            visible_in_sidebar: None,
            page_title: None,
            path: "start".to_string(),
            order: Some(1),
            children: None,
        }])
    );
}

#[test]
fn directory_and_document_of_one_stem_give_one_item() {
    let forward = vec![dir("a", vec![]), file("a.mdx", "---\nsidebar_title: Leaf\n---")];
    let backward = vec![file("a.mdx", "---\nsidebar_title: Leaf\n---"), dir("a", vec![])];
    let expected = vec![synthesized("a", vec![])];
    assert_eq!(traverse_directory(&forward), Ok(expected));
    assert_eq!(traverse_directory(&forward), traverse_directory(&backward));
}

#[test]
fn document_that_sorts_before_directory_of_its_stem_is_kept() {
    let items = traverse_directory(&vec![dir("a.z", vec![]), file("a.mdx", "")]).unwrap();
    assert_eq!(items.len(), 2);
    assert_eq!(items[0], leaf("a"));
    assert_eq!(items[1], synthesized("a", vec![]));
}

#[test]
fn two_directories_of_one_stem_are_both_listed() {
    let items = traverse_directory(&vec![dir("v.2", vec![]), dir("v.1", vec![])]).unwrap();
    assert_eq!(paths(&items), vec!["v".to_string(), "v".to_string()]);
}

#[test]
fn second_document_of_one_stem_is_passed_over() {
    let entries = vec![
        file("a.mdx", "---\norder: 2\n---"),
        file("a.b.mdx", "---\norder: 1\n---"),
    ];
    let items = traverse_directory(&entries).unwrap();
    assert_eq!(items.len(), 1);
    assert_eq!(items[0].path, "a");
    assert_eq!(items[0].order, Some(1));
}

#[test]
fn items_come_in_order_of_file_name_bytes() {
    let entries = vec![
        file("b.mdx", ""),
        file("\u{e9}.mdx", ""),
        file("a.mdx", ""),
        dir("c", vec![]),
        file("B.mdx", ""),
        file("a-b.mdx", ""),
        file("10.mdx", ""),
        file("9.mdx", ""),
        file("z.mdx", ""),
        file("\u{1f600}.mdx", ""),
        file("\u{ffff}.mdx", ""),
    ];
    let items = traverse_directory(&entries).unwrap();
    assert_eq!(
        paths(&items),
        vec![
            "10".to_string(),
            "9".to_string(),
            "B".to_string(),
            "a-b".to_string(),
            "a".to_string(),
            "b".to_string(),
            "c".to_string(),
            "z".to_string(),
            "\u{e9}".to_string(),
            "\u{ffff}".to_string(),
            "\u{1f600}".to_string(),
        ]
    );
}

#[test]
fn order_field_does_not_arrange_items() {
    let entries = vec![
        file("a.mdx", "---\norder: 9\n---"),
        file("b.mdx", "---\norder: 1\n---"),
    ];
    let items = traverse_directory(&entries).unwrap();
    assert_eq!(paths(&items), vec!["a".to_string(), "b".to_string()]);
}

#[test]
fn listing_order_does_not_matter() {
    let make = |names: &[&str]| {
        let mut entries = Vec::new();
        for name in names {
            if name.ends_with('/') {
                entries.push(dir(&name[..name.len() - 1], vec![file("x.mdx", "")]));
            } else {
                entries.push(file(name, "---\nsidebar_title: T\n---"));
            }
        }
        entries
    };
    let one = traverse_directory(&make(&["b.mdx", "a/", "c.txt", "a.mdx", "d/"]));
    let two = traverse_directory(&make(&["d/", "a.mdx", "c.txt", "a/", "b.mdx"]));
    let three = traverse_directory(&make(&["a.mdx", "b.mdx", "d/", "c.txt", "a/"]));
    assert!(one.is_ok());
    assert_eq!(one, two);
    assert_eq!(one, three);
    assert_eq!(paths(&one.unwrap()), vec!["a".to_string(), "b".to_string(), "d".to_string()]);
}

#[test]
fn entries_of_one_name_keep_listing_order() {
    let entries = vec![
        file("a.mdx", "---\norder: 1\n---"),
        dir("a.mdx", vec![]),
    ];
    let items = traverse_directory(&entries).unwrap();
    assert_eq!(items.len(), 2);
    assert_eq!(items[0].order, Some(1));
    assert_eq!(items[1].children, Some(vec![]));
}

#[test]
fn other_files_are_ignored() {
    let entries = vec![
        file("image.png", "not read"),
        unread("movie.mp4"),
        file("README.md", "# Readme"),
        file("notes.MDX", ""),
        file("mdx", ""),
        file(".mdx", "---\norder: 1\n---"),
        file("a.mdx.bak", ""),
        file("trailing.mdx.", ""),
    ];
    assert_eq!(traverse_directory(&entries), Ok(vec![]));
}

#[test]
fn stem_is_what_stands_before_the_first_dot() {
    let entries = vec![
        file("a.b.mdx", ""),
        dir("c.d.e", vec![]),
        file("..mdx", ""),
        dir(".hidden", vec![]),
    ];
    let items = traverse_directory(&entries).unwrap();
    assert_eq!(
        paths(&items),
        vec!["".to_string(), "".to_string(), "a".to_string(), "c".to_string()]
    );
    assert_eq!(items[0].children, None);
    assert_eq!(items[1], synthesized("", vec![]));
}

#[test]
fn directory_named_like_a_document_is_a_directory() {
    let items = traverse_directory(&vec![dir("page.mdx", vec![])]).unwrap();
    assert_eq!(items, vec![synthesized("page", vec![])]);
}

fn io(cause: &str) -> PreviewError {
    PreviewError::IoFailure(cause.to_string())
}

#[test]
fn unread_document_fails_the_traversal() {
    let entries = vec![file("a.mdx", ""), unread("b.mdx"), file("c.mdx", "")];
    assert_eq!(traverse_directory(&entries), Err(io("cannot read b.mdx")));
}

#[test]
fn first_failure_in_order_of_names_is_reported() {
    let entries = vec![unread("z.mdx"), unlisted_dir("m"), unread("b.mdx"), file("a.mdx", "")];
    assert_eq!(traverse_directory(&entries), Err(io("cannot read b.mdx")));
    let dirs = vec![unread("z.mdx"), unlisted_dir("m")];
    assert_eq!(traverse_directory(&dirs), Err(io("Permission denied (os error 13)")));
}

#[test]
fn unread_document_that_is_passed_over_does_no_harm() {
    let entries = vec![dir("a", vec![]), unread("a.mdx")];
    assert_eq!(traverse_directory(&entries), Ok(vec![synthesized("a", vec![])]));
}

#[test]
fn unlisted_directory_fails_the_traversal() {
    assert_eq!(
        traverse_directory(&vec![unlisted_dir("a")]),
        Err(io("Permission denied (os error 13)"))
    );
    let nested = vec![dir("a", vec![dir("b", vec![unlisted_dir("c")])])];
    assert_eq!(traverse_directory(&nested), Err(io("Permission denied (os error 13)")));
}

#[test]
fn unread_document_below_fails_the_traversal() {
    let entries = vec![dir("a", vec![dir("b", vec![unread("c.mdx")])])];
    assert_eq!(traverse_directory(&entries), Err(io("cannot read c.mdx")));
}

#[test]
fn unreadable_document_named_after_directory_fails() {
    assert_eq!(
        traverse_directory(&vec![dir("a", vec![unread("a.mdx")])]),
        Err(io("cannot read a.mdx"))
    );
    assert_eq!(
        traverse_directory(&vec![dir("a", vec![dir("a.mdx", vec![])])]),
        Err(io("Is a directory"))
    );
}

#[test]
fn metadata_of_a_directory_fails_before_its_entries() {
    let entries = vec![dir("a", vec![unread("0.mdx"), unread("a.mdx")])];
    assert_eq!(traverse_directory(&entries), Err(io("cannot read a.mdx")));
}

#[test]
fn directory_without_stem_is_described_by_the_document_without_stem() {
    let entries = vec![dir(".hidden", vec![file(".mdx", "---\nsidebar_title: Hidden\n---")])];
    let items = traverse_directory(&entries).unwrap();
    assert_eq!(items.len(), 1);
    assert_eq!(items[0].path, "");
    assert_eq!(items[0].name, Some("Hidden".to_string()));
    assert_eq!(items[0].children, Some(vec![]));
    assert_eq!(
        traverse_directory(&vec![dir(".hidden", vec![unread(".mdx")])]),
        Err(io("cannot read .mdx"))
    );
}

#[test]
fn text_is_needed_of_names_with_the_extension() {
    for (name, expected) in [
        ("a.mdx", true),
        (".mdx", true),
        ("..mdx", true),
        ("a.b.mdx", true),
        ("mdx", false),
        ("a.md", false),
        ("a.mdx.bak", false),
        ("a.MDX", false),
        ("", false),
    ] {
        assert_eq!(needs_text(name), expected, "{:?}", name);
    }
}

#[test]
fn traversal_follows_the_tree() {
    let tree = vec![
        dir(
            "api",
            vec![
                dir("v1", vec![file("users.mdx", "---\nsidebar_title: Users\n---")]),
                file("overview.mdx", ""),
            ],
        ),
        file("index.mdx", ""),
    ];
    let users = MenuItem { name: Some("Users".to_string()), ..leaf("users") };
    let expected = vec![
        synthesized("api", vec![leaf("overview"), synthesized("v1", vec![users])]),
        leaf("index"),
    ];
    assert_eq!(traverse_directory(&tree), Ok(expected));
}

#[test]
fn documents_are_normalized_when_traversed() {
    let text = "---\nsidebar_title: A \u{e2}\u{20ac}\u{201d} B\n---";
    let items = traverse_directory(&vec![file("a.mdx", text)]).unwrap();
    assert_eq!(items[0].name, Some("A - B".to_string()));
}

#[test]
fn extension_traverses() {
    let extension = DocterPreviewExtension::new();
    let items = extension.traverse_directory(&vec![file("b.mdx", ""), file("a.mdx", "")]);
    assert_eq!(items, Ok(vec![leaf("a"), leaf("b")]));
}

#[test]
fn find_entry_gives_first_position_or_length() {
    let entries = vec![file("a", ""), file("b", ""), file("a", "")];
    assert_eq!(find_entry(&entries, &"a".to_string()), 0);
    assert_eq!(find_entry(&entries, &"b".to_string()), 1);
    assert_eq!(find_entry(&entries, &"c".to_string()), 3);
}

#[test]
fn first_place_of_both_names_is_found() {
    let place = |category: &str, product: &str, text: &str| Place {
        category: category.to_string(),
        product: product.to_string(),
        listing: Ok(vec![file("x.mdx", text)]),
    };
    let places = vec![
        place("guides", "cards", "1"),
        place("api", "payments", "2"),
        place("guides", "payments", "3"),
        place("guides", "payments", "4"),
    ];
    let find = |category: &str, product: &str| {
        find_place(&places, &category.to_string(), &product.to_string())
    };
    assert_eq!(find("guides", "cards"), 0);
    assert_eq!(find("api", "payments"), 1);
    assert_eq!(find("guides", "payments"), 2);
    assert_eq!(find("api", "cards"), 4);
    assert_eq!(find("guides/payments", ""), 4);
    assert_eq!(find_place(&vec![], &"a".to_string(), &"b".to_string()), 0);
}

#[test]
fn items_of_a_place_are_those_of_its_entries() {
    assert_eq!(items_of_listing(&Ok(vec![file("b.mdx", ""), file("a.mdx", "")])), Ok(vec![leaf("a"), leaf("b")]));
    assert_eq!(
        items_of_listing(&Err("Not a directory (os error 20)".to_string())),
        Err(io("Not a directory (os error 20)"))
    );
}

#[test]
fn listing_order_does_not_matter_at_any_depth() {
    let one = vec![
        dir(
            "guides",
            vec![
                file("guides.mdx", "---\nsidebar_title: Guides\n---"),
                dir("b", vec![file("z.mdx", ""), file("y.mdx", "---\norder: 1\n---"), dir("y", vec![])]),
                file("a.mdx", ""),
                dir("a", vec![dir("deep", vec![file("2.mdx", ""), file("1.mdx", "")])]),
            ],
        ),
        file("index.mdx", ""),
        dir("api", vec![file("v2.mdx", ""), file("v1.mdx", "")]),
    ];
    let two = vec![
        dir("api", vec![file("v1.mdx", ""), file("v2.mdx", "")]),
        file("index.mdx", ""),
        dir(
            "guides",
            vec![
                dir("a", vec![dir("deep", vec![file("1.mdx", ""), file("2.mdx", "")])]),
                file("a.mdx", ""),
                dir("b", vec![dir("y", vec![]), file("y.mdx", "---\norder: 1\n---"), file("z.mdx", "")]),
                file("guides.mdx", "---\nsidebar_title: Guides\n---"),
            ],
        ),
    ];
    let first = traverse_directory(&one);
    assert!(first.is_ok());
    assert_eq!(first, traverse_directory(&two));
    let items = first.unwrap();
    assert_eq!(paths(&items), vec!["api".to_string(), "guides".to_string(), "index".to_string()]);
    let guides = items[1].children.as_ref().unwrap();
    assert_eq!(paths(guides), vec!["a".to_string(), "b".to_string(), "guides".to_string()]);
    let b = guides[1].children.as_ref().unwrap();
    assert_eq!(paths(b), vec!["y".to_string(), "z".to_string()]);
    assert_eq!(b[0].children, Some(vec![]));
}

#[test]
fn failure_does_not_depend_on_listing_order() {
    let one = vec![dir("a", vec![unread("2.mdx"), unread("1.mdx")]), unread("b.mdx")];
    let two = vec![unread("b.mdx"), dir("a", vec![unread("1.mdx"), unread("2.mdx")])];
    assert_eq!(traverse_directory(&one), Err(io("cannot read 1.mdx")));
    assert_eq!(traverse_directory(&one), traverse_directory(&two));
}
