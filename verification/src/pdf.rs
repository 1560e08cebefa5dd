use vstd::prelude::*;

verus! {

// `lopdf` does the actual PDF decoding.  The declarations below give the
// few items of it that the extraction pipeline touches; everything proved
// about the pipeline rests on the contracts stated here.
#[verifier::external_type_specification]
#[verifier::external_body]
pub struct ExDocument(lopdf::Document);

#[verifier::external_type_specification]
#[verifier::external_body]
pub struct ExLopdfError(lopdf::Error);

/// The per-page text that a loaded document yields, 1-indexed at
/// position `i + 1`: `Some(text)` where `lopdf::Document::extract_text`
/// succeeds for that single page number, `None` where it fails.  The
/// sequence's length is the page count that the document reports.
pub uninterp spec fn doc_pages(doc: lopdf::Document) -> Seq<Option<Seq<char>>>;

/// What loading a byte sequence as a PDF yields: `None` where the
/// decoder rejects the bytes outright, otherwise the per-page text of
/// the loaded document.  The decode is a function of the bytes alone.
pub uninterp spec fn pdf_pages_of(bytes: Seq<u8>) -> Option<Seq<Option<Seq<char>>>>;

/// Relies on `lopdf::Document::load_mem`: parsing an in-memory buffer is
/// deterministic in the buffer's bytes, and a loaded document's pages are
/// fixed at load time.
#[verifier::external_body]
pub(crate) fn load_document(data: &[u8]) -> (r: Result<lopdf::Document, lopdf::Error>)
    ensures
        r is Ok <==> pdf_pages_of(data@) is Some,
        r matches Ok(doc) ==> pdf_pages_of(data@) == Some(doc_pages(doc)),
{
    lopdf::Document::load_mem(data)
}

/// Relies on `lopdf::Document::get_pages`: its keys number the pages
/// 1 through the page count, one entry per page.
#[verifier::external_body]
pub(crate) fn doc_page_count(doc: &lopdf::Document) -> (n: usize)
    ensures
        n == doc_pages(*doc).len(),
{
    doc.get_pages().len()
}

/// Relies on `lopdf::Document::extract_text`, asked for one 1-indexed
/// page number at a time (in the decoder's 32-bit form), exactly as
/// the page loop does: the call is deterministic in the document and
/// the page number, and `doc_pages` names its outcome per page.
#[verifier::external_body]
pub(crate) fn extract_page_text(doc: &lopdf::Document, page_num: usize) -> (r: Result<
    String,
    lopdf::Error,
>)
    requires
        1 <= page_num <= doc_pages(*doc).len(),
    ensures
        r is Ok <==> doc_pages(*doc)[page_num - 1] is Some,
        r matches Ok(t) ==> doc_pages(*doc)[page_num - 1] == Some(t@),
{
    doc.extract_text(&[page_num as u32])
}

/// Relies on `lopdf::Error`'s `Display` impl for the decoder's
/// human-readable description of a failure.
#[verifier::external_body]
pub(crate) fn lopdf_error_message(e: &lopdf::Error) -> String {
    e.to_string()
}

} // verus!
