use docter_preview::cli::{request_of, unknown_command, usage, Operation, Request};
use docter_preview::error::{error_message, PreviewError};

fn args(words: &[&str]) -> Vec<String> {
    let mut out = Vec::new();
    for word in words {
        out.push(word.to_string());
    }
    out
}

#[test]
fn no_arguments_ask_for_help() {
    assert_eq!(request_of(&vec![]), Request::Help);
}

#[test]
fn operations_are_named_by_the_first_argument() {
    assert_eq!(request_of(&args(&["mdx-preview", "a.mdx"])), Request::Run(Operation::MdxPreview));
    assert_eq!(
        request_of(&args(&["build-menu-items", "endpoints.json"])),
        Request::Run(Operation::BuildMenuItems)
    );
    assert_eq!(
        request_of(&args(&["sidebar-preview", "endpoints.json"])),
        Request::Run(Operation::SidebarPreview)
    );
    assert_eq!(
        request_of(&args(&["sidebar-preview-category", "a/b", "endpoints.json"])),
        Request::Run(Operation::SidebarPreviewCategory)
    );
}

#[test]
fn missing_arguments_are_told_apart() {
    assert_eq!(request_of(&args(&["mdx-preview"])), Request::Incomplete(Operation::MdxPreview));
    assert_eq!(
        request_of(&args(&["build-menu-items"])),
        Request::Incomplete(Operation::BuildMenuItems)
    );
    assert_eq!(
        request_of(&args(&["sidebar-preview"])),
        Request::Incomplete(Operation::SidebarPreview)
    );
    assert_eq!(
        request_of(&args(&["sidebar-preview-category"])),
        Request::Incomplete(Operation::SidebarPreviewCategory)
    );
    assert_eq!(
        request_of(&args(&["sidebar-preview-category", "a/b"])),
        Request::Incomplete(Operation::SidebarPreviewCategory)
    );
}

#[test]
fn further_arguments_are_not_looked_at() {
    assert_eq!(
        request_of(&args(&["mdx-preview", "a.mdx", "b.mdx", "c"])),
        Request::Run(Operation::MdxPreview)
    );
}

#[test]
fn other_words_are_unknown() {
    assert_eq!(request_of(&args(&["--help"])), Request::Unknown);
    assert_eq!(request_of(&args(&["MDX-PREVIEW", "a.mdx"])), Request::Unknown);
    assert_eq!(request_of(&args(&["", "a.mdx"])), Request::Unknown);
    assert_eq!(request_of(&args(&["sidebar-preview-categories", "a", "b"])), Request::Unknown);
}

#[test]
fn usage_of_each_operation() {
    assert_eq!(usage(Operation::MdxPreview), "Usage: docter-preview mdx-preview <file>");
    assert_eq!(
        usage(Operation::BuildMenuItems),
        "Usage: docter-preview build-menu-items <endpoints_file>"
    );
    assert_eq!(
        usage(Operation::SidebarPreview),
        "Usage: docter-preview sidebar-preview <endpoints_file>"
    );
    assert_eq!(
        usage(Operation::SidebarPreviewCategory),
        "Usage: docter-preview sidebar-preview-category <category_path> <endpoints_file>"
    );
}

#[test]
fn unknown_command_is_named() {
    assert_eq!(unknown_command("deploy"), "Unknown command: deploy");
    assert_eq!(unknown_command(""), "Unknown command: ");
}

#[test]
fn each_failure_has_its_message() {
    let say = |error: PreviewError| error_message(&error, "guides", "payments", "/docs/guides/payments");
    assert_eq!(
        say(PreviewError::InputTooLarge),
        "MDX file contains more characters than the accepted limit (15000). Please visit https://docs.setu.co/content-preview for manual preview."
    );
    assert_eq!(say(PreviewError::MalformedPath), "Category path must be in format: category/product");
    assert_eq!(say(PreviewError::CategoryNotFound), "Category 'guides' not found");
    assert_eq!(
        say(PreviewError::ProductNotFound),
        "Product 'payments' not found in category 'guides'"
    );
    assert_eq!(
        say(PreviewError::DirectoryNotFound),
        "Directory does not exist: /docs/guides/payments"
    );
    assert_eq!(
        say(PreviewError::IoFailure("No such file or directory (os error 2)".to_string())),
        "No such file or directory (os error 2)"
    );
}
