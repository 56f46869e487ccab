//! From an HTML page to a document record.
//!
//! Rendering HTML to plain text is the work of `nanohtml2text`. The library
//! names what it renders and builds on that name; everything after the
//! rendering is the library's own and is proved.

use crate::document::{Doc, DocView};
use crate::error::ExtractionError;
use crate::index::{frequencies_of, Index};
use crate::lexer::tokens;
use crate::text::{chars_of, string_from_utf8};
use nanohtml2text::html2text;
use vstd::prelude::*;
use vstd::utf8::{decode_utf8, valid_utf8};

verus! {

/// The plain text that `html2text` renders from a page.
pub uninterp spec fn html_text(html: Seq<char>) -> Seq<char>;

/// Calls `nanohtml2text::html2text`. Trusted: rendering is a pure function
/// of the page, and its result is what `html_text` names.
#[verifier::external_body]
pub(crate) fn render_html(html: &str) -> (text: String)
    ensures
        text@ == html_text(html@),
{
    html2text(html)
}

/// The record that belongs to a page: the terms of its rendered text, and
/// the modification time of the page.
pub open spec fn page_record(html: Seq<char>, last_modified: u64) -> DocView {
    DocView { terms: tokens(html_text(html)).to_multiset(), last_modified: last_modified as nat }
}

/// Renders a page to text and builds its record.
pub fn document_from_html(html: &str, last_modified: u64) -> (doc: Doc)
    ensures
        doc.wf(),
        doc@ == page_record(html@, last_modified),
{
    let text = render_html(html);
    let content = chars_of(text.as_str());
    Doc::build(content.as_slice(), last_modified)
}

/// Builds the record of a page from the raw content of its file. Content
/// that is not UTF-8 gives no record.
pub fn document_from_bytes(raw: Vec<u8>, last_modified: u64) -> (made: Result<Doc, ExtractionError>)
    ensures
        match made {
            Ok(doc) => valid_utf8(raw@) && doc.wf() && doc@ == page_record(
                decode_utf8(raw@),
                last_modified,
            ),
            Err(e) => !valid_utf8(raw@) && e == ExtractionError::NotUtf8,
        },
{
    match string_from_utf8(raw) {
        Some(html) => Ok(document_from_html(html.as_str(), last_modified)),
        None => Err(ExtractionError::NotUtf8),
    }
}

/// Indexes the page `html` under the id `file_path`, replacing the record
/// that the id had before, if it had one.
pub fn add_file_to_index(file_path: String, last_modified: u64, html: &str, index: &mut Index)
    ensures
        final(index).wf(),
        final(index)@.documents == old(index)@.documents.insert(
            file_path@,
            page_record(html@, last_modified),
        ),
        final(index)@.document_frequency == frequencies_of(final(index)@.documents),
{
    let doc = document_from_html(html, last_modified);
    index.upsert(file_path, doc);
}

/// Whether a file with this extension is indexed: only `html` files are.
pub fn is_html(extension: &str) -> (b: bool)
    ensures
        b == (extension@ == "html"@),
{
    crate::text::str_eq(extension, "html")
}

} // verus!
