use vstd::prelude::*;
use vstd::string::StrSliceExecFns;
use crate::errors::ParserError;
use crate::extract::{extract, extract_post, page_join, ExtractionResult};
use crate::json::{envelope, json_envelope};
use crate::pdf::pdf_pages_of;

verus! {

/// The file-name component of a path: everything after the last `/`,
/// or the whole path where it has none.
pub open spec fn file_name_of(path: Seq<char>) -> Seq<char>
    decreases path.len(),
{
    if path.len() == 0 || path.last() == '/' {
        Seq::<char>::empty()
    } else {
        file_name_of(path.drop_last()).push(path.last())
    }
}

/// Whether the path's file name carries the literal, case-sensitive
/// `.pdf` extension: it ends in `.pdf` and has a nonempty stem before
/// the dot (a bare `.pdf` does not count as an extension).
pub open spec fn has_pdf_extension(path: Seq<char>) -> bool {
    let name = file_name_of(path);
    name.len() > 4 && name.skip(name.len() - 4) == ".pdf"@
}

proof fn lemma_file_name_from(path: Seq<char>, s: int)
    requires
        0 <= s <= path.len(),
        s == 0 || path[s - 1] == '/',
        forall|j: int| s <= j < path.len() ==> path[j] != '/',
    ensures
        file_name_of(path) == path.skip(s),
    decreases path.len(),
{
    if path.len() == s {
        assert(path.skip(s) =~= Seq::<char>::empty());
    } else {
        assert(path.last() != '/');
        lemma_file_name_from(path.drop_last(), s);
        assert(path.drop_last().skip(s).push(path.last()) =~= path.skip(s));
    }
}

/// Check that the input path names a PDF file.  The command-line
/// driver runs this before it reads a single byte from disk; any other
/// extension fails with `UnsupportedFormat`.
pub fn validate_input_path(path: &str) -> (r: Result<(), ParserError>)
    ensures
        r is Ok <==> has_pdf_extension(path@),
        r matches Err(e) ==> e is UnsupportedFormat,
{
    let n = path.unicode_len();
    let mut start: usize = n;
    while start > 0 && path.get_char(start - 1) != '/'
        invariant
            n == path@.len(),
            start <= n,
            forall|j: int| start <= j < n ==> path@[j] != '/',
        decreases start,
    {
        start -= 1;
    }
    proof {
        lemma_file_name_from(path@, start as int);
    }
    let name_len = n - start;
    if name_len < 5 {
        return Err(ParserError::UnsupportedFormat);
    }
    let ext = ".pdf";
    let mut j: usize = 0;
    while j < 4
        invariant
            n == path@.len(),
            start <= n,
            n - start >= 5,
            j <= 4,
            ext@ == ".pdf"@,
            file_name_of(path@) == path@.skip(start as int),
            forall|k: int| 0 <= k < j ==> path@[n - 4 + k] == ".pdf"@[k],
        decreases 4 - j,
    {
        proof {
            reveal_strlit(".pdf");
        }
        if path.get_char(n - 4 + j) != ext.get_char(j) {
            proof {
                let name = file_name_of(path@);
                assert(name.skip(name.len() - 4)[j as int] == path@[n - 4 + j]);
                assert(name.skip(name.len() - 4) != ".pdf"@);
            }
            return Err(ParserError::UnsupportedFormat);
        }
        j += 1;
    }
    proof {
        reveal_strlit(".pdf");
        let name = file_name_of(path@);
        assert(name.skip(name.len() - 4) =~= ".pdf"@);
    }
    Ok(())
}

/// What parsing a document's bytes to text returns: the newline-joined
/// page text where the decoder loads the bytes, a `ParseError` where it
/// rejects them.
pub open spec fn parse_text_post(data: Seq<u8>, r: Result<String, ParserError>) -> bool {
    match pdf_pages_of(data) {
        Some(pages) => r matches Ok(t) && t@ == page_join(pages),
        None => r matches Err(e) && e is ParseError,
    }
}

/// A parser from a document's raw bytes to its plain text.
pub trait DocumentParser {
    fn parse(&self, data: &[u8]) -> (r: Result<String, ParserError>)
        ensures
            parse_text_post(data@, r),
    ;
}

/// The PDF-backed `DocumentParser`.
pub struct PDFParser;

impl DocumentParser for PDFParser {
    /// Extract the newline-joined text of every page, skipping pages
    /// whose text cannot be decoded.
    fn parse(&self, data: &[u8]) -> (r: Result<String, ParserError>)
        ensures
            parse_text_post(data@, r),
    {
        match extract(data) {
            Ok(res) => Ok(res.text),
            Err(e) => Err(e),
        }
    }
}

/// What rendering a document's bytes as the JSON envelope returns:
/// the envelope holding the joined page text where the decoder loads
/// the bytes, a `ParseError` where it rejects them.
pub open spec fn parse_to_json_post(data: Seq<u8>, r: Result<String, ParserError>) -> bool {
    match pdf_pages_of(data) {
        Some(pages) => r matches Ok(j) && j@ == envelope(page_join(pages)),
        None => r matches Err(e) && e is ParseError,
    }
}

/// The orchestrator both front ends share: raw PDF bytes in,
/// structured extraction result or JSON envelope out.
pub struct ResumeParser {
    pdf_parser: PDFParser,
}

impl ResumeParser {
    pub fn new() -> Self {
        ResumeParser { pdf_parser: PDFParser }
    }

    /// Extract text and page count from the PDF held in `data`: the
    /// operation behind the embeddable boundary, which reports both
    /// fields of the result.
    pub fn parse_pdf(&self, data: &[u8]) -> (r: Result<ExtractionResult, ParserError>)
        ensures
            extract_post(data@, r),
    {
        extract(data)
    }

    /// Extract text from the PDF held in `data` and render it as the
    /// JSON envelope the command-line driver writes to disk.
    pub fn parse_to_json(&self, data: &[u8]) -> (r: Result<String, ParserError>)
        ensures
            parse_to_json_post(data@, r),
    {
        match self.pdf_parser.parse(data) {
            Ok(text) => Ok(json_envelope(text.as_str())),
            Err(e) => Err(e),
        }
    }
}

/// The command-line output is a function of the input bytes alone:
/// rendering the same bytes twice yields character-identical JSON, and
/// success itself does not vary between the two runs.  Together with
/// the envelope round trip, reading either file back yields the same
/// text.
pub proof fn lemma_parse_to_json_deterministic(
    data: Seq<u8>,
    r1: Result<String, ParserError>,
    r2: Result<String, ParserError>,
)
    requires
        parse_to_json_post(data, r1),
        parse_to_json_post(data, r2),
    ensures
        r1 is Ok <==> r2 is Ok,
        r1 matches Ok(a) ==> (r2 matches Ok(b) && a@ == b@),
{
}

} // verus!
