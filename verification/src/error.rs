//! The ways in which an operation of this library ends without a result, and
//! what is said of each.

use vstd::prelude::*;
use vstd::string::StringExecFns;

verus! {

/// Why an operation was abandoned. Every failure ends the operation it
/// occurs in; nothing is retried and nothing partial is handed back.
#[derive(Clone, Debug, PartialEq, Eq)]
pub enum PreviewError {
    /// The encoded document is longer than a preview link may carry.
    InputTooLarge,
    /// A category path is not of the form `category/product`.
    MalformedPath,
    /// No top-level entry has the category's path.
    CategoryNotFound,
    /// The category has no child with the product's path.
    ProductNotFound,
    /// Nothing stands at `category/product` in the content directory.
    DirectoryNotFound,
    /// A directory could not be listed or a document could not be read;
    /// with it comes what was said of the failure where it happened.
    IoFailure(String),
}

/// What a `PreviewError` holds, as mathematical values.
pub enum PreviewErrorView {
    InputTooLarge,
    MalformedPath,
    CategoryNotFound,
    ProductNotFound,
    DirectoryNotFound,
    IoFailure(Seq<char>),
}

impl View for PreviewError {
    type V = PreviewErrorView;

    open spec fn view(&self) -> PreviewErrorView {
        match self {
            PreviewError::InputTooLarge => PreviewErrorView::InputTooLarge,
            PreviewError::MalformedPath => PreviewErrorView::MalformedPath,
            PreviewError::CategoryNotFound => PreviewErrorView::CategoryNotFound,
            PreviewError::ProductNotFound => PreviewErrorView::ProductNotFound,
            PreviewError::DirectoryNotFound => PreviewErrorView::DirectoryNotFound,
            PreviewError::IoFailure(cause) => PreviewErrorView::IoFailure(cause@),
        }
    }
}

/// What is said of a failure. `category` and `product` are the two parts of
/// the category path that was asked for, and `directory` is the place in
/// the content directory that belongs to them; each is named only where the
/// failure is about it. An I/O failure is told in the words that came with
/// it.
pub open spec fn error_text(
    error: PreviewErrorView,
    category: Seq<char>,
    product: Seq<char>,
    directory: Seq<char>,
) -> Seq<char> {
    match error {
        PreviewErrorView::InputTooLarge => "MDX file contains more characters than the accepted limit (15000). Please visit https://docs.setu.co/content-preview for manual preview."@,
        PreviewErrorView::MalformedPath => "Category path must be in format: category/product"@,
        PreviewErrorView::CategoryNotFound => "Category '"@ + category + "' not found"@,
        PreviewErrorView::ProductNotFound => "Product '"@ + product + "' not found in category '"@
            + category + "'"@,
        PreviewErrorView::DirectoryNotFound => "Directory does not exist: "@ + directory,
        PreviewErrorView::IoFailure(cause) => cause,
    }
}

/// The message for `error`.
pub fn error_message(error: &PreviewError, category: &str, product: &str, directory: &str) -> (text:
    String)
    ensures
        text@ == error_text(error@, category@, product@, directory@),
{
    match error {
        PreviewError::InputTooLarge => String::from_str(
            "MDX file contains more characters than the accepted limit (15000). Please visit https://docs.setu.co/content-preview for manual preview.",
        ),
        PreviewError::MalformedPath => String::from_str(
            "Category path must be in format: category/product",
        ),
        PreviewError::CategoryNotFound => {
            let mut text = String::from_str("Category '");
            text.append(category);
            text.append("' not found");
            text
        },
        PreviewError::ProductNotFound => {
            let mut text = String::from_str("Product '");
            text.append(product);
            text.append("' not found in category '");
            text.append(category);
            text.append("'");
            text
        },
        PreviewError::DirectoryNotFound => {
            let mut text = String::from_str("Directory does not exist: ");
            text.append(directory);
            text
        },
        PreviewError::IoFailure(cause) => cause.clone(),
    }
}

} // verus!
