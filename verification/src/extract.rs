use vstd::prelude::*;
use vstd::string::StringExecFns;
use crate::errors::ParserError;
use crate::pdf::{
    doc_pages, pdf_pages_of, load_document, doc_page_count, extract_page_text, lopdf_error_message,
};

verus! {

/// What one page contributes to the joined text: its extracted text
/// followed by one newline, or nothing at all where extraction failed
/// for that page.
pub open spec fn page_contribution(p: Option<Seq<char>>) -> Seq<char> {
    match p {
        Some(t) => t + seq!['\n'],
        None => Seq::<char>::empty(),
    }
}

/// The concatenation of every page's contribution, in page order: each
/// successfully extracted page's text followed by a newline, failed
/// pages silently skipped.
pub open spec fn page_join(pages: Seq<Option<Seq<char>>>) -> Seq<char>
    decreases pages.len(),
{
    if pages.len() == 0 {
        Seq::<char>::empty()
    } else {
        page_join(pages.drop_last()) + page_contribution(pages.last())
    }
}

/// The structured success value of one extraction call: all pages' text
/// joined newline-separated, and the page count the decoder reported.
pub struct ExtractionResult {
    pub text: String,
    pub page_count: usize,
}

/// What extraction returns for a given input: where the decoder loads
/// the bytes, the joined page text together with the page count; where
/// it rejects them, a `ParseError` and nothing else — never a partial
/// result.
pub open spec fn extract_post(data: Seq<u8>, r: Result<ExtractionResult, ParserError>) -> bool {
    match pdf_pages_of(data) {
        Some(pages) => match r {
            Ok(res) => res.page_count == pages.len() && res.text@ == page_join(pages),
            Err(_) => false,
        },
        None => match r {
            Ok(_) => false,
            Err(e) => e is ParseError,
        },
    }
}

proof fn lemma_page_join_snoc(pages: Seq<Option<Seq<char>>>, p: Option<Seq<char>>)
    ensures
        page_join(pages.push(p)) == page_join(pages) + page_contribution(p),
{
    assert(pages.push(p).drop_last() =~= pages);
    assert(pages.push(p).last() == p);
}

/// The per-page loop: ask the decoder for each page's text in turn,
/// append each successful page's text and a newline, skip a page whose
/// extraction fails.
fn join_page_texts(doc: &lopdf::Document) -> (text: String)
    ensures
        text@ == page_join(doc_pages(*doc)),
{
    let ghost pages = doc_pages(*doc);
    let count = doc_page_count(doc);
    let mut text = String::new();
    let mut idx: usize = 0;
    while idx < count
        invariant
            pages == doc_pages(*doc),
            count == pages.len(),
            idx <= count,
            text@ == page_join(pages.take(idx as int)),
        decreases count - idx,
    {
        match extract_page_text(doc, idx + 1) {
            Ok(page_text) => {
                text.append(page_text.as_str());
                text.append("\n");
                proof {
                    reveal_strlit("\n");
                    assert(page_contribution(pages[idx as int]) =~= page_text@ + "\n"@);
                }
            },
            Err(_) => {
                proof {
                    assert(page_contribution(pages[idx as int]) =~= Seq::<char>::empty());
                }
            },
        }
        proof {
            lemma_page_join_snoc(pages.take(idx as int), pages[idx as int]);
            assert(pages.take(idx + 1) =~= pages.take(idx as int).push(pages[idx as int]));
            assert(text@ =~= page_join(pages.take(idx + 1)));
        }
        idx += 1;
    }
    proof {
        assert(pages.take(count as int) =~= pages);
    }
    text
}

/// Extract the text of every page of the PDF held in `data`, together
/// with the document's page count.
///
/// A document that cannot be loaded at all is fatal for the call and
/// yields a `ParseError` carrying the decoder's message.  A single page
/// whose text cannot be decoded is skipped silently — it contributes
/// nothing, not even its newline — and never aborts the rest of the
/// document.
pub fn extract(data: &[u8]) -> (r: Result<ExtractionResult, ParserError>)
    ensures
        extract_post(data@, r),
{
    match load_document(data) {
        Err(e) => Err(ParserError::ParseError(lopdf_error_message(&e))),
        Ok(doc) => {
            let page_count = doc_page_count(&doc);
            let text = join_page_texts(&doc);
            Ok(ExtractionResult { text, page_count })
        },
    }
}

/// How many times a character occurs in a sequence.
pub open spec fn count_char(s: Seq<char>, c: char) -> int
    decreases s.len(),
{
    if s.len() == 0 {
        0
    } else {
        count_char(s.drop_last(), c) + if s.last() == c {
            1int
        } else {
            0int
        }
    }
}

proof fn lemma_count_char_concat(a: Seq<char>, b: Seq<char>, c: char)
    ensures
        count_char(a + b, c) == count_char(a, c) + count_char(b, c),
    decreases b.len(),
{
    if b.len() == 0 {
        assert(a + b =~= a);
    } else {
        assert((a + b).drop_last() =~= a + b.drop_last());
        assert((a + b).last() == b.last());
        lemma_count_char_concat(a, b.drop_last(), c);
    }
}

proof fn lemma_count_char_absent(s: Seq<char>, c: char)
    requires
        !s.contains(c),
    ensures
        count_char(s, c) == 0,
    decreases s.len(),
{
    if s.len() > 0 {
        assert(!s.drop_last().contains(c)) by {
            if s.drop_last().contains(c) {
                let i = choose|i: int| 0 <= i < s.drop_last().len() && s.drop_last()[i] == c;
                assert(s[i] == c);
            }
        }
        assert(s.last() != c) by {
            if s.last() == c {
                assert(s[s.len() - 1] == c);
            }
        }
        lemma_count_char_absent(s.drop_last(), c);
    }
}

/// Where every one of the `N` pages yields text and none of that text
/// itself holds a newline, the joined text holds exactly `N` newlines:
/// one newline-terminated segment per page.
pub proof fn lemma_page_join_segments(pages: Seq<Option<Seq<char>>>)
    requires
        forall|i: int|
            0 <= i < pages.len() ==> (#[trigger] pages[i]) is Some && !pages[i]->0.contains('\n'),
    ensures
        count_char(page_join(pages), '\n') == pages.len(),
    decreases pages.len(),
{
    if pages.len() > 0 {
        let front = pages.drop_last();
        assert(forall|i: int|
            0 <= i < front.len() ==> (#[trigger] front[i]) is Some && !front[i]->0.contains('\n'));
        lemma_page_join_segments(front);
        let t = pages.last()->0;
        assert(page_contribution(pages.last()) == t + seq!['\n']);
        lemma_count_char_concat(page_join(front), t + seq!['\n'], '\n');
        lemma_count_char_concat(t, seq!['\n'], '\n');
        assert(!t.contains('\n')) by {
            assert(pages[pages.len() - 1] is Some);
        }
        lemma_count_char_absent(t, '\n');
        assert(count_char(seq!['\n'], '\n') == 1) by {
            reveal_with_fuel(count_char, 2);
            assert(seq!['\n'].drop_last() =~= Seq::<char>::empty());
            assert(seq!['\n'].last() == '\n');
        }
    }
}

/// Extraction is a function of the input bytes alone: two successful
/// extraction results for the same bytes hold the same text and page
/// count, and success itself does not vary between the two.  Error
/// messages are the decoder's own and are not pinned here.
pub proof fn lemma_extract_deterministic(
    data: Seq<u8>,
    r1: Result<ExtractionResult, ParserError>,
    r2: Result<ExtractionResult, ParserError>,
)
    requires
        extract_post(data, r1),
        extract_post(data, r2),
    ensures
        r1 is Ok <==> r2 is Ok,
        r1 matches Ok(a) ==> (r2 matches Ok(b) && a.text@ == b.text@ && a.page_count
            == b.page_count),
{
}

} // verus!
