use resume_parser::json::{json_envelope, parse_envelope};

#[test]
fn envelope_exact_shape() {
    let out = json_envelope("Hello");
    assert_eq!(out, "{\n  \"raw_resume\": \"Hello\"\n}");
}

#[test]
fn envelope_escapes_quotes_backslashes_and_controls() {
    let out = json_envelope("a\"b\\c\nd\te\u{1}f");
    assert_eq!(out, "{\n  \"raw_resume\": \"a\\\"b\\\\c\\nd\\te\\u0001f\"\n}");
}

#[test]
fn envelope_keeps_non_ascii_text_as_is() {
    let out = json_envelope("naïve résumé — 履歴書");
    assert_eq!(out, "{\n  \"raw_resume\": \"naïve résumé — 履歴書\"\n}");
}

#[test]
fn envelope_matches_reference_serializer() {
    let texts = [
        "plain text",
        "with \"quotes\" and \\slashes\\",
        "control\u{2}chars\r\nand tabs\t",
        "non-ASCII: café, 東京, ½, \u{7f}",
        "",
    ];
    for text in texts {
        let mut map = serde_json::Map::new();
        map.insert(
            "raw_resume".to_string(),
            serde_json::Value::String(text.to_string()),
        );
        let reference = serde_json::to_string_pretty(&serde_json::Value::Object(map)).unwrap();
        assert_eq!(json_envelope(text), reference);
    }
}

#[test]
fn round_trip_preserves_text_exactly() {
    let texts = [
        "plain",
        "",
        "naïve — résumé with ü and 漢字",
        "quotes \" backslash \\ slash / newline \n tab \t bell \u{7}",
        "every control: \u{0}\u{1}\u{2}\u{3}\u{1f}",
    ];
    for text in texts {
        let enveloped = json_envelope(text);
        let back = parse_envelope(&enveloped).unwrap();
        assert_eq!(back, text);
    }
}

#[test]
fn reference_reader_recovers_the_text() {
    let text = "UTF-8 safe: déjà vu, Привет, \u{1F600} emoji, line\nbreak";
    let enveloped = json_envelope(text);
    let value: serde_json::Value = serde_json::from_str(&enveloped).unwrap();
    assert_eq!(value["raw_resume"].as_str().unwrap(), text);
}

#[test]
fn parse_envelope_rejects_malformed_input() {
    assert!(parse_envelope("").is_none());
    assert!(parse_envelope("{}").is_none());
    assert!(parse_envelope("{\n  \"raw_resume\": \"unterminated").is_none());
    assert!(parse_envelope("{\n  \"other_key\": \"text\"\n}").is_none());
    assert!(parse_envelope("{\n  \"raw_resume\": \"bad \\x escape\"\n}").is_none());
}

#[test]
fn parse_envelope_accepts_written_envelope() {
    let enveloped = json_envelope("two\nlines");
    assert_eq!(parse_envelope(&enveloped).unwrap(), "two\nlines");
}
