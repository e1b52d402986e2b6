use docter_preview::error::PreviewError;
use docter_preview::extension::DocterPreviewExtension;
use docter_preview::front_matter::{parse, parse_document, FrontMatter};

fn absent() -> FrontMatter {
    FrontMatter { sidebar_title: None, visible_in_sidebar: None, page_title: None, order: None }
}

#[test]
fn front_matter_title_and_order() {
    let fm = parse("---\nsidebar_title: Hello\norder: 2\n---\nbody");
    assert_eq!(
        fm,
        FrontMatter {
            sidebar_title: Some("Hello".to_string()),
            visible_in_sidebar: None,
            page_title: None,
            order: Some(2),
        }
    );
}

#[test]
fn text_without_delimiter_has_no_metadata() {
    assert_eq!(parse("# Just a heading"), absent());
    assert_eq!(parse(""), absent());
    assert_eq!(parse("--"), absent());
    assert_eq!(parse("\n---\norder: 1\n---"), absent());
    assert_eq!(parse(" ---\norder: 1\n---"), absent());
}

#[test]
fn extension_parses_front_matter() {
    let extension = DocterPreviewExtension::new();
    let fm = extension.parse_frontmatter("---\npage_title: Start\n---\n").unwrap();
    assert_eq!(fm.page_title, Some("Start".to_string()));
    assert_eq!(fm.sidebar_title, None);
}

#[test]
fn all_four_fields_are_read() {
    let fm = parse(
        "---\nsidebar_title: Side\npage_title: Page\nvisible_in_sidebar: false\norder: -7\n---\n",
    );
    assert_eq!(
        fm,
        FrontMatter {
            sidebar_title: Some("Side".to_string()),
            visible_in_sidebar: Some(false),
            page_title: Some("Page".to_string()),
            order: Some(-7),
        }
    );
}

#[test]
fn block_ends_at_first_delimiter_line() {
    let fm = parse("---\norder: 1\n  ---  \norder: 2\n---\n");
    assert_eq!(fm.order, Some(1));
    let open = parse("---\norder: 3\nsidebar_title: To the end");
    assert_eq!(open.order, Some(3));
    assert_eq!(open.sidebar_title, Some("To the end".to_string()));
}

#[test]
fn first_line_has_to_be_exactly_the_delimiter() {
    assert_eq!(parse("---abc\nsidebar_title: X\n---\n"), absent());
    assert_eq!(parse("---- order: 9\norder: 4\n---\n"), absent());
    assert_eq!(parse("--- \norder: 4\n---\n"), absent());
    assert_eq!(parse("---\t\norder: 4\n---\n"), absent());
    assert_eq!(parse(" ---\norder: 4\n---\n"), absent());
    assert_eq!(parse("----\norder: 4\n---\n"), absent());
    assert_eq!(parse("--\norder: 4\n---\n"), absent());
    assert_eq!(parse("---\norder: 4\n---\n").order, Some(4));
    assert_eq!(parse("---\norder: 4").order, Some(4));
    assert_eq!(parse("---"), absent());
}

#[test]
fn carriage_return_before_the_line_feed_is_no_part_of_the_line() {
    let fm = parse("---\r\nsidebar_title: Windows\r\norder: 2\r\n---\r\nbody\r\n");
    assert_eq!(fm.sidebar_title, Some("Windows".to_string()));
    assert_eq!(fm.order, Some(2));
    assert_eq!(parse("---\r\r\norder: 4\n---\n"), absent());
    assert_eq!(parse("---\rorder: 4\n---\n"), absent());
    assert_eq!(parse("---\r"), absent());
}

#[test]
fn blank_lines_comments_and_lines_without_colon_are_skipped() {
    let fm = parse("---\n\n# order: 5\n   \njust words\norder: 6\n---\n");
    assert_eq!(fm.order, Some(6));
    assert_eq!(fm.sidebar_title, None);
}

#[test]
fn unknown_keys_are_ignored() {
    assert_eq!(parse("---\ntitle: Nothing\nOrder: 3\n---\n"), absent());
}

#[test]
fn key_and_value_are_trimmed() {
    let fm = parse("---\n \t sidebar_title \t :  \t Spaced out \u{a0}\r\n---\n");
    assert_eq!(fm.sidebar_title, Some("Spaced out".to_string()));
}

#[test]
fn value_is_split_at_first_colon() {
    let fm = parse("---\npage_title: a: b : c\n---\n");
    assert_eq!(fm.page_title, Some("a: b : c".to_string()));
}

#[test]
fn one_pair_of_quotes_is_taken_off() {
    assert_eq!(
        parse("---\nsidebar_title: \"Double\"\n---").sidebar_title,
        Some("Double".to_string())
    );
    assert_eq!(
        parse("---\nsidebar_title: 'Single'\n---").sidebar_title,
        Some("Single".to_string())
    );
    assert_eq!(
        parse("---\nsidebar_title: \"\"Twice\"\"\n---").sidebar_title,
        Some("\"Twice\"".to_string())
    );
    assert_eq!(
        parse("---\nsidebar_title: \"'Mixed'\"\n---").sidebar_title,
        Some("'Mixed'".to_string())
    );
    assert_eq!(parse("---\nsidebar_title: \"\"\n---").sidebar_title, Some("".to_string()));
}

#[test]
fn quotes_that_do_not_surround_stay() {
    assert_eq!(
        parse("---\nsidebar_title: \"Open\n---").sidebar_title,
        Some("\"Open".to_string())
    );
    assert_eq!(
        parse("---\nsidebar_title: \"Odd'\n---").sidebar_title,
        Some("\"Odd'".to_string())
    );
    assert_eq!(parse("---\nsidebar_title: \"\n---").sidebar_title, Some("\"".to_string()));
}

#[test]
fn quoted_numbers_and_booleans_are_read() {
    let fm = parse("---\norder: \"12\"\nvisible_in_sidebar: 'true'\n---");
    assert_eq!(fm.order, Some(12));
    assert_eq!(fm.visible_in_sidebar, Some(true));
}

#[test]
fn unreadable_boolean_leaves_field_absent() {
    assert_eq!(parse("---\nvisible_in_sidebar: yes\n---").visible_in_sidebar, None);
    assert_eq!(parse("---\nvisible_in_sidebar: True\n---").visible_in_sidebar, None);
    assert_eq!(parse("---\nvisible_in_sidebar:\n---").visible_in_sidebar, None);
    assert_eq!(parse("---\nvisible_in_sidebar: true\n---").visible_in_sidebar, Some(true));
}

#[test]
fn unreadable_order_leaves_field_absent() {
    assert_eq!(parse("---\norder: two\n---").order, None);
    assert_eq!(parse("---\norder: 1.5\n---").order, None);
    assert_eq!(parse("---\norder: 1 2\n---").order, None);
    assert_eq!(parse("---\norder:\n---").order, None);
    assert_eq!(parse("---\norder: +\n---").order, None);
    assert_eq!(parse("---\norder: -\n---").order, None);
    assert_eq!(parse("---\norder: --1\n---").order, None);
}

#[test]
fn order_takes_sign_and_leading_zeros() {
    assert_eq!(parse("---\norder: +15\n---").order, Some(15));
    assert_eq!(parse("---\norder: -0\n---").order, Some(0));
    assert_eq!(parse("---\norder: 000000000000000000000042\n---").order, Some(42));
}

#[test]
fn order_is_bounded_by_32_bits() {
    assert_eq!(parse("---\norder: 2147483647\n---").order, Some(2147483647));
    assert_eq!(parse("---\norder: 2147483648\n---").order, None);
    assert_eq!(parse("---\norder: -2147483648\n---").order, Some(-2147483648));
    assert_eq!(parse("---\norder: -2147483649\n---").order, None);
    assert_eq!(parse("---\norder: 99999999999999999999999999\n---").order, None);
}

#[test]
fn later_entry_replaces_earlier_one() {
    let fm = parse("---\norder: 1\nsidebar_title: A\norder: x\nsidebar_title: B\n---");
    assert_eq!(fm.order, None);
    assert_eq!(fm.sidebar_title, Some("B".to_string()));
}

#[test]
fn misread_dash_is_replaced_before_parsing() {
    let fm = parse_document("---\nsidebar_title: Before \u{e2}\u{20ac}\u{201d} after\n---\n");
    assert_eq!(fm.sidebar_title, Some("Before - after".to_string()));
    let raw = parse("---\nsidebar_title: Before \u{e2}\u{20ac}\u{201d} after\n---\n");
    assert_eq!(raw.sidebar_title, Some("Before \u{e2}\u{20ac}\u{201d} after".to_string()));
}

#[test]
fn misread_dashes_can_make_the_delimiter() {
    let dash = "\u{e2}\u{20ac}\u{201d}";
    let text = format!("{d}{d}{d}\norder: 8\n{d}{d}{d}\norder: 9\n", d = dash);
    assert_eq!(parse_document(&text).order, Some(8));
    assert_eq!(parse(&text), absent());
}

#[test]
fn read_mdx_file_fails_without_text() {
    let extension = DocterPreviewExtension::new();
    assert_eq!(
        extension.read_mdx_file(&Err("No such file or directory (os error 2)".to_string())),
        Err(PreviewError::IoFailure("No such file or directory (os error 2)".to_string()))
    );
    let fm = extension.read_mdx_file(&Ok("---\norder: 3\n---".to_string())).unwrap();
    assert_eq!(fm.order, Some(3));
}
