use lopdf::content::{Content, Operation};
use lopdf::{Dictionary, Document, Object, Stream};
use resume_parser::errors::ParserError;
use resume_parser::parser::{validate_input_path, ResumeParser};

fn one_page_pdf(text: &str) -> Vec<u8> {
    let mut doc = Document::with_version("1.5");
    let pages_id = doc.new_object_id();

    let mut font = Dictionary::new();
    font.set("Type", Object::Name(b"Font".to_vec()));
    font.set("Subtype", Object::Name(b"Type1".to_vec()));
    font.set("BaseFont", Object::Name(b"Courier".to_vec()));
    let font_id = doc.add_object(font);

    let mut fonts = Dictionary::new();
    fonts.set("F1", font_id);
    let mut resources = Dictionary::new();
    resources.set("Font", fonts);
    let resources_id = doc.add_object(resources);

    let content = Content {
        operations: vec![
            Operation::new("BT", vec![]),
            Operation::new("Tf", vec![Object::Name(b"F1".to_vec()), Object::Integer(12)]),
            Operation::new("Td", vec![Object::Integer(100), Object::Integer(600)]),
            Operation::new("Tj", vec![Object::string_literal(text)]),
            Operation::new("ET", vec![]),
        ],
    };
    let content_id = doc.add_object(Stream::new(Dictionary::new(), content.encode().unwrap()));

    let mut page = Dictionary::new();
    page.set("Type", Object::Name(b"Page".to_vec()));
    page.set("Parent", pages_id);
    page.set("Contents", content_id);
    let page_id = doc.add_object(page);

    let mut pages = Dictionary::new();
    pages.set("Type", Object::Name(b"Pages".to_vec()));
    pages.set("Count", 1i64);
    pages.set("Kids", vec![Object::Reference(page_id)]);
    pages.set("Resources", resources_id);
    pages.set(
        "MediaBox",
        vec![
            Object::Integer(0),
            Object::Integer(0),
            Object::Integer(595),
            Object::Integer(842),
        ],
    );
    doc.objects.insert(pages_id, Object::Dictionary(pages));

    let mut catalog = Dictionary::new();
    catalog.set("Type", Object::Name(b"Catalog".to_vec()));
    catalog.set("Pages", pages_id);
    let catalog_id = doc.add_object(catalog);
    doc.trailer.set("Root", catalog_id);

    let mut out: Vec<u8> = Vec::new();
    doc.save_to(&mut out).unwrap();
    out
}

#[test]
fn wrong_extension_is_unsupported_format() {
    let r = validate_input_path("resume.txt");
    assert!(matches!(r, Err(ParserError::UnsupportedFormat)));
}

#[test]
fn pdf_extension_passes_validation() {
    assert!(validate_input_path("resume.pdf").is_ok());
    assert!(validate_input_path("some/dir/resume.pdf").is_ok());
}

#[test]
fn extension_check_is_case_sensitive_and_needs_a_stem() {
    assert!(validate_input_path("resume.PDF").is_err());
    assert!(validate_input_path("resume.pdfx").is_err());
    assert!(validate_input_path(".pdf").is_err());
    assert!(validate_input_path("dir/.pdf").is_err());
    assert!(validate_input_path("resume").is_err());
}

#[test]
fn cli_json_holds_only_the_text() {
    let data = one_page_pdf("Work history");
    let parser = ResumeParser::new();
    let json = parser.parse_to_json(&data).unwrap();
    assert_eq!(json, "{\n  \"raw_resume\": \"Work history\\n\\n\"\n}");
    assert!(!json.contains("page_count"));
}

#[test]
fn cli_json_is_identical_across_runs() {
    let data = one_page_pdf("Same input, same output");
    let parser = ResumeParser::new();
    let first = parser.parse_to_json(&data).unwrap();
    let second = parser.parse_to_json(&data).unwrap();
    assert_eq!(first, second);
    assert_eq!(first.as_bytes(), second.as_bytes());
}

#[test]
fn cli_json_parse_failure_carries_decoder_message() {
    let parser = ResumeParser::new();
    let r = parser.parse_to_json(b"garbage bytes");
    match r {
        Err(ParserError::ParseError(msg)) => assert!(!msg.is_empty()),
        other => panic!("expected a parse error, got {:?}", other),
    }
}

#[test]
fn error_messages_follow_the_taxonomy() {
    assert_eq!(
        ParserError::UnsupportedFormat.message(),
        "Unsupported file format"
    );
    assert_eq!(
        ParserError::FileReadError("no such file".to_string()).message(),
        "Failed to read file: no such file"
    );
    assert_eq!(
        ParserError::ParseError("bad header".to_string()).message(),
        "Failed to parse document: bad header"
    );
    assert_eq!(
        ParserError::JsonWriteError("disk full".to_string()).message(),
        "Failed to write JSON: disk full"
    );
}
