use docter_preview::assemble::menu_file_name;
use docter_preview::extension::{DocterPreviewExtension, ServerCommand};

#[test]
fn language_server_is_the_program_asked_for_help() {
    let extension = DocterPreviewExtension::new();
    assert_eq!(
        extension.language_server_command(),
        ServerCommand {
            command: "docter-preview".to_string(),
            args: vec!["--help".to_string()],
            env: vec![],
        }
    );
}

#[test]
fn menu_document_has_a_fixed_file_name() {
    assert_eq!(menu_file_name(), "menuItems.json");
}

#[test]
fn extension_previews_documents() {
    let extension = DocterPreviewExtension::new();
    let text = extension.mdx_preview("# Hi").unwrap();
    assert_eq!(
        text,
        "MDX Preview URL generated:\nhttps://staging.docs.setu.co/preview-query?mdx=IyBIaQ==\n\nYou can open this URL in your browser to preview the MDX content."
    );
}
