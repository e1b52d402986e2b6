//! The extension: one value through which every operation is reached.

use crate::assemble::{build, build_menu_items};
use crate::content::{document_metadata, traverse, traverse_directory, DirEntry, Place};
use crate::error::{PreviewError, PreviewErrorView};
use crate::front_matter::{
    parse, parse_document, parse_front_matter, FrontMatter, FrontMatterView,
};
use crate::menu::{items_view, Endpoints, EndpointsView, MenuItem, MenuItemView};
use crate::preview::{base64_standard, document_preview_text, mdx_preview, padded_length};
use crate::sidebar::{
    extract, extract_category, listing, listing_text, sidebar_options, visible_options,
};
use vstd::prelude::*;
use vstd::string::{StringExecFns, StringSliceAdditionalSpecFns};

verus! {

/// The documentation preview extension. It keeps nothing between two
/// operations: each works on what it is given and on nothing else.
pub struct DocterPreviewExtension {
    cached_binary_path: Option<String>,
}

/// How a language server is started: the program, its arguments, and the
/// variables of its environment.
#[derive(Clone, Debug, PartialEq, Eq)]
pub struct ServerCommand {
    pub command: String,
    pub args: Vec<String>,
    pub env: Vec<(String, String)>,
}

impl DocterPreviewExtension {
    /// The path of the program that a language server would be started
    /// from, where one is remembered.
    pub closed spec fn cached_binary_path(&self) -> Option<String> {
        self.cached_binary_path
    }

    /// A new extension, which remembers no path.
    pub fn new() -> (extension: Self)
        ensures
            extension.cached_binary_path() is None,
    {
        Self { cached_binary_path: None }
    }

    /// How the language server of this extension is started: as the program
    /// `docter-preview`, asked for its help, in an environment of its own.
    pub fn language_server_command(&self) -> (command: ServerCommand)
        ensures
            command.command@ == "docter-preview"@,
            command.args@.len() == 1,
            command.args@[0]@ == "--help"@,
            command.env@.len() == 0,
    {
        let mut args: Vec<String> = Vec::new();
        args.push(String::from_str("--help"));
        ServerCommand { command: String::from_str("docter-preview"), args, env: Vec::new() }
    }

    /// The preview of the document `content`: accepted if and only if its
    /// base64 text has at most 15000 characters.
    pub fn mdx_preview(&self, content: &str) -> (result: Result<String, PreviewError>)
        ensures
            match result {
                Ok(text) => padded_length(content.spec_bytes().len()) <= 15000
                    && base64_standard(content.spec_bytes()).len() == padded_length(
                    content.spec_bytes().len(),
                ) && text@ == document_preview_text(base64_standard(content.spec_bytes())),
                Err(e) => e@ == PreviewErrorView::InputTooLarge && padded_length(
                    content.spec_bytes().len(),
                ) > 15000,
            },
            result is Ok <==> content.spec_bytes().len() <= 11250,
    {
        mdx_preview(content)
    }

    /// The metadata that the text `content` begins with. Any text has
    /// metadata, if only the one in which every field is absent.
    pub fn parse_frontmatter(&self, content: &str) -> (result: Result<FrontMatter, PreviewError>)
        ensures
            result is Ok,
            result->Ok_0@ == parse_front_matter(content@),
    {
        Ok(parse(content))
    }

    /// The metadata of a document file, given what was read of it: that of
    /// its text with misread em dashes put right, or failure, for the reason
    /// that was given, where nothing was read.
    pub fn read_mdx_file(&self, text: &Result<String, String>) -> (result: Result<
        FrontMatter,
        PreviewError,
    >)
        ensures
            match result {
                Ok(fm) => document_metadata(*text) == Ok::<FrontMatterView, PreviewErrorView>(
                    fm@,
                ),
                Err(e) => document_metadata(*text) == Err::<FrontMatterView, PreviewErrorView>(
                    e@,
                ),
            },
    {
        match text {
            Ok(t) => Ok(parse_document(t.as_str())),
            Err(cause) => Err(PreviewError::IoFailure(cause.clone())),
        }
    }

    /// The menu items of a directory, given its entries in any order.
    pub fn traverse_directory(&self, entries: &Vec<DirEntry>) -> (result: Result<
        Vec<MenuItem>,
        PreviewError,
    >)
        ensures
            match result {
                Ok(items) => traverse(entries@) == Ok::<Seq<MenuItemView>, PreviewErrorView>(
                    items_view(items@),
                ),
                Err(e) => traverse(entries@) == Err::<Seq<MenuItemView>, PreviewErrorView>(e@),
            },
    {
        traverse_directory(entries)
    }

    /// The menu document that the skeleton `endpoints` and the places
    /// `places` of the content directory give.
    pub fn build_menu_items(&self, endpoints: &Endpoints, places: &Vec<Place>) -> (result: Result<
        Endpoints,
        PreviewError,
    >)
        ensures
            match result {
                Ok(menu) => build(endpoints@, places@) == Ok::<EndpointsView, PreviewErrorView>(
                    menu@,
                ),
                Err(e) => build(endpoints@, places@) == Err::<EndpointsView, PreviewErrorView>(
                    e@,
                ),
            },
    {
        build_menu_items(endpoints, places)
    }

    /// The listing of the categories of `endpoints` that can be previewed.
    pub fn sidebar_preview(&self, endpoints: &Endpoints) -> (text: String)
        ensures
            text@ == listing_text(visible_options(endpoints@.home)),
    {
        let options = sidebar_options(endpoints);
        listing(&options)
    }

    /// The document that shows the category `category_path` of `endpoints`
    /// by itself, with the menu items of the directory that `places` holds
    /// for it.
    pub fn sidebar_preview_category(
        &self,
        category_path: &str,
        endpoints: &Endpoints,
        places: &Vec<Place>,
    ) -> (result: Result<Endpoints, PreviewError>)
        ensures
            match result {
                Ok(bundle) => extract(endpoints@, category_path@, places@) == Ok::<
                    EndpointsView,
                    PreviewErrorView,
                >(bundle@),
                Err(e) => extract(endpoints@, category_path@, places@) == Err::<
                    EndpointsView,
                    PreviewErrorView,
                >(e@),
            },
    {
        extract_category(endpoints, category_path, places)
    }
}

} // verus!
