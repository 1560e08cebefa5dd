use lopdf::content::{Content, Operation};
use lopdf::{Dictionary, Document, Object, Stream};
use resume_parser::errors::ParserError;
use resume_parser::extract::extract;
use resume_parser::parser::{DocumentParser, PDFParser, ResumeParser};

/// Build an in-memory PDF whose pages carry the given content streams.
fn pdf_with_page_streams(streams: Vec<Vec<u8>>) -> Vec<u8> {
    let mut doc = Document::with_version("1.5");
    let pages_id = doc.new_object_id();

    let mut font = Dictionary::new();
    font.set("Type", Object::Name(b"Font".to_vec()));
    font.set("Subtype", Object::Name(b"Type1".to_vec()));
    font.set("BaseFont", Object::Name(b"Courier".to_vec()));
    let font_id = doc.add_object(font);

    let mut fonts = Dictionary::new();
    fonts.set("F1", font_id);
    let mut resources = Dictionary::new();
    resources.set("Font", fonts);
    let resources_id = doc.add_object(resources);

    let mut kids: Vec<Object> = Vec::new();
    for data in streams {
        let content_id = doc.add_object(Stream::new(Dictionary::new(), data));
        let mut page = Dictionary::new();
        page.set("Type", Object::Name(b"Page".to_vec()));
        page.set("Parent", pages_id);
        page.set("Contents", content_id);
        let page_id = doc.add_object(page);
        kids.push(page_id.into());
    }

    let mut pages = Dictionary::new();
    pages.set("Type", Object::Name(b"Pages".to_vec()));
    pages.set("Count", kids.len() as i64);
    pages.set("Kids", kids);
    pages.set("Resources", resources_id);
    pages.set(
        "MediaBox",
        vec![
            Object::Integer(0),
            Object::Integer(0),
            Object::Integer(595),
            Object::Integer(842),
        ],
    );
    doc.objects.insert(pages_id, Object::Dictionary(pages));

    let mut catalog = Dictionary::new();
    catalog.set("Type", Object::Name(b"Catalog".to_vec()));
    catalog.set("Pages", pages_id);
    let catalog_id = doc.add_object(catalog);
    doc.trailer.set("Root", catalog_id);

    let mut out: Vec<u8> = Vec::new();
    doc.save_to(&mut out).unwrap();
    out
}

/// A content stream that shows the given text with the shared font.
fn text_stream(text: &str) -> Vec<u8> {
    let content = Content {
        operations: vec![
            Operation::new("BT", vec![]),
            Operation::new("Tf", vec![Object::Name(b"F1".to_vec()), Object::Integer(12)]),
            Operation::new("Td", vec![Object::Integer(100), Object::Integer(600)]),
            Operation::new("Tj", vec![Object::string_literal(text)]),
            Operation::new("ET", vec![]),
        ],
    };
    content.encode().unwrap()
}

/// A content stream whose inline image is cut short, which the content
/// parser rejects outright.
fn corrupt_stream() -> Vec<u8> {
    b"BI x".to_vec()
}

#[test]
fn single_page_text_and_count() {
    let data = pdf_with_page_streams(vec![text_stream("Hello")]);
    let res = extract(&data).unwrap();
    assert_eq!(res.page_count, 1);
    assert_eq!(res.text, "Hello\n\n");
}

#[test]
fn multi_page_count_and_segments() {
    let data = pdf_with_page_streams(vec![
        text_stream("Alpha"),
        text_stream("Beta"),
        text_stream("Gamma"),
    ]);
    let res = extract(&data).unwrap();
    assert_eq!(res.page_count, 3);
    assert_eq!(res.text, "Alpha\n\nBeta\n\nGamma\n\n");
}

#[test]
fn corrupt_page_is_skipped_silently() {
    let data = pdf_with_page_streams(vec![
        text_stream("Alpha"),
        corrupt_stream(),
        text_stream("Gamma"),
    ]);
    let res = extract(&data).unwrap();
    assert_eq!(res.page_count, 3);
    assert_eq!(res.text, "Alpha\n\nGamma\n\n");
    assert!(!res.text.contains("Beta"));
}

#[test]
fn non_pdf_bytes_fail_with_parse_error() {
    let r = extract(b"this is not a pdf at all");
    assert!(matches!(r, Err(ParserError::ParseError(_))));
}

#[test]
fn truncated_pdf_fails_with_parse_error() {
    let mut data = pdf_with_page_streams(vec![text_stream("Hello")]);
    data.truncate(40);
    let r = extract(&data);
    assert!(matches!(r, Err(ParserError::ParseError(_))));
}

#[test]
fn empty_input_fails_with_parse_error() {
    let r = extract(b"");
    assert!(matches!(r, Err(ParserError::ParseError(_))));
}

#[test]
fn document_parser_trait_returns_joined_text() {
    let data = pdf_with_page_streams(vec![text_stream("One"), text_stream("Two")]);
    let parser = PDFParser;
    let text = parser.parse(&data).unwrap();
    assert_eq!(text, "One\n\nTwo\n\n");
}

#[test]
fn resume_parser_reports_both_fields() {
    let data = pdf_with_page_streams(vec![text_stream("Body")]);
    let parser = ResumeParser::new();
    let res = parser.parse_pdf(&data).unwrap();
    assert_eq!(res.page_count, 1);
    assert_eq!(res.text, "Body\n\n");
}
