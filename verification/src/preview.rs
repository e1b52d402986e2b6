//! Preview links: a document or a category, encoded as base64 and carried
//! in the query of a link to the preview site.

use crate::error::{PreviewError, PreviewErrorView};
use vstd::prelude::*;
use vstd::string::{StrSliceExecFns, StringExecFns, StringSliceAdditionalSpecFns};

verus! {

/// The text that standard base64, with padding, makes of `bytes`.
pub uninterp spec fn base64_standard(bytes: Seq<u8>) -> Seq<char>;

/// The length of the padded base64 text of `n` bytes: four characters for
/// every three bytes, and four more for what is left over.
pub open spec fn padded_length(n: nat) -> nat {
    (n / 3) * 4 + if n % 3 > 0 {
        4nat
    } else {
        0nat
    }
}

/// The longest encoded document that a preview link may carry, in
/// characters.
pub const PREVIEW_LIMIT: usize = 15000;

/// Calls `Engine::encode` of the crate base64 on the engine
/// `general_purpose::STANDARD`. The contract claims that the text depends on
/// the bytes alone and has the length that the crate's `encoded_len` gives
/// with padding. The call panics where that length does not fit in `usize`,
/// and the buffer that it fills cannot be longer than `isize::MAX`, so
/// inputs with a longer text are left out.
#[verifier::external_body]
fn encode_standard(input: &[u8]) -> (encoded: String)
    requires
        padded_length(input@.len()) <= isize::MAX,
    ensures
        encoded@ == base64_standard(input@),
        encoded@.len() == padded_length(input@.len()),
{
    base64::Engine::encode(&base64::engine::general_purpose::STANDARD, input)
}

/// What is said of a document whose encoded text is `encoded`: the link to
/// its preview, with a line before and a hint after it.
pub open spec fn document_preview_text(encoded: Seq<char>) -> Seq<char> {
    "MDX Preview URL generated:\n"@ + "https://staging.docs.setu.co/preview-query?mdx="@ + encoded
        + "\n\nYou can open this URL in your browser to preview the MDX content."@
}

/// The preview of a document whose encoded text is `encoded`: refused where
/// the text is longer than 15000 characters.
pub open spec fn document_preview(encoded: Seq<char>) -> Result<Seq<char>, PreviewErrorView> {
    if encoded.len() > 15000 {
        Err(PreviewErrorView::InputTooLarge)
    } else {
        Ok(document_preview_text(encoded))
    }
}

/// The preview of a document, given its encoded text. A text of exactly
/// 15000 characters is still accepted.
pub fn preview_of_encoded(encoded: &str) -> (result: Result<String, PreviewError>)
    ensures
        match result {
            Ok(text) => document_preview(encoded@) == Ok::<Seq<char>, PreviewErrorView>(text@),
            Err(e) => document_preview(encoded@) == Err::<Seq<char>, PreviewErrorView>(e@),
        },
{
    if encoded.unicode_len() > PREVIEW_LIMIT {
        return Err(PreviewError::InputTooLarge);
    }
    let mut text = String::from_str("MDX Preview URL generated:\n");
    text.append("https://staging.docs.setu.co/preview-query?mdx=");
    text.append(encoded);
    text.append("\n\nYou can open this URL in your browser to preview the MDX content.");
    Ok(text)
}

/// The base64 text of `input`, unless it would be longer than a text can
/// be.
fn encode(input: &[u8]) -> (encoded: Option<String>)
    ensures
        match encoded {
            Some(text) => padded_length(input@.len()) <= isize::MAX && text@ == base64_standard(
                input@,
            ) && text@.len() == padded_length(input@.len()),
            None => padded_length(input@.len()) > isize::MAX,
        },
{
    let whole = input.len() / 3;
    let most: usize = (usize::MAX / 2) / 4;
    if whole > most || (input.len() % 3 > 0 && whole == most) {
        None
    } else {
        Some(encode_standard(input))
    }
}

/// The preview of the document `content`: its bytes are encoded as
/// base64, and the link carries the encoded text. The document is accepted
/// if and only if the encoded text has at most 15000 characters, which is
/// the case for up to 11250 bytes.
pub fn mdx_preview(content: &str) -> (result: Result<String, PreviewError>)
    ensures
        match result {
            Ok(text) => padded_length(content.spec_bytes().len()) <= 15000 && base64_standard(
                content.spec_bytes(),
            ).len() == padded_length(content.spec_bytes().len()) && text@
                == document_preview_text(base64_standard(content.spec_bytes())),
            Err(e) => e@ == PreviewErrorView::InputTooLarge && padded_length(
                content.spec_bytes().len(),
            ) > 15000,
        },
        result is Ok <==> content.spec_bytes().len() <= 11250,
{
    match encode(content.as_bytes()) {
        Some(encoded) => preview_of_encoded(encoded.as_str()),
        None => Err(PreviewError::InputTooLarge),
    }
}

/// What is said of the category `category_path` whose document, written as
/// JSON, has the encoded text `encoded`.
pub open spec fn category_preview_text(category_path: Seq<char>, encoded: Seq<char>) -> Seq<char> {
    "Sidebar preview URL for '"@ + category_path + "' generated:\n"@
        + "https://staging.docs.setu.co/sidebar-preview?endpoints="@ + encoded
        + "\n\nYou can open this URL in your browser to preview the sidebar."@
}

/// The preview of the category `category_path`, given its document written
/// as JSON: the bytes of `bundle` are encoded as base64, and the link
/// carries the encoded text, whatever its length. There is none only where
/// the encoded text would be longer than a text can be, `isize::MAX` bytes.
pub fn category_preview(category_path: &str, bundle: &str) -> (preview: Option<String>)
    ensures
        match preview {
            Some(text) => padded_length(bundle.spec_bytes().len()) <= isize::MAX
                && base64_standard(bundle.spec_bytes()).len() == padded_length(
                bundle.spec_bytes().len(),
            ) && text@ == category_preview_text(
                category_path@,
                base64_standard(bundle.spec_bytes()),
            ),
            None => padded_length(bundle.spec_bytes().len()) > isize::MAX,
        },
{
    let encoded = match encode(bundle.as_bytes()) {
        Some(encoded) => encoded,
        None => {
            return None;
        },
    };
    let mut text = String::from_str("Sidebar preview URL for '");
    text.append(category_path);
    text.append("' generated:\n");
    text.append("https://staging.docs.setu.co/sidebar-preview?endpoints=");
    text.append(encoded.as_str());
    text.append("\n\nYou can open this URL in your browser to preview the sidebar.");
    Some(text)
}

} // verus!
