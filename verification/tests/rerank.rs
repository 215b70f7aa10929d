use vekta::rerank::{
    document_span, document_text, parse_record, read_metadata, resolve_line, resolve_metadata,
    DocumentSpan, MetadataFields, ResolveError,
};

fn span_of(line: &str) -> Result<DocumentSpan, ResolveError> {
    let span = resolve_line(line);
    if let Ok(record) = parse_record(line) {
        assert_eq!(document_span(&record), span);
    }
    span
}

#[test]
fn record_resolves_to_the_first_two_of_three_lines() {
    let line = r#"{"metadata":{"file_path":"f.txt","start_line":0,"end_line":2}}"#;
    let span = span_of(line).unwrap();
    assert_eq!(
        span,
        DocumentSpan { file_path: String::from("f.txt"), start_line: 0, end_line: 2 }
    );
    assert_eq!(document_text(&span, "first\nsecond\nthird\n"), "first\nsecond");
    assert_eq!(document_text(&span, "first\nsecond\nthird"), "first\nsecond");
}

#[test]
fn record_with_other_members_resolves_too() {
    let line = r#"{"label":"f.txt_part1","vector":[0.5,1],"metadata":{"chunk_index":1,"end_line":30,"file_path":"docs/f.txt","start_line":25}}"#;
    let span = span_of(line).unwrap();
    assert_eq!(span.file_path, "docs/f.txt");
    assert_eq!(span.start_line, 25);
    assert_eq!(span.end_line, 30);
}

#[test]
fn missing_start_line_is_reported() {
    let line = r#"{"metadata":{"file_path":"f.txt","end_line":2}}"#;
    assert_eq!(span_of(line), Err(ResolveError::MissingStartLine));
}

#[test]
fn missing_metadata_is_reported() {
    assert_eq!(span_of(r#"{"label":"x"}"#), Err(ResolveError::MissingMetadata));
    assert_eq!(span_of(r#"{"metadata":"f.txt"}"#), Err(ResolveError::MissingMetadata));
    assert_eq!(span_of(r#"{"metadata":null}"#), Err(ResolveError::MissingMetadata));
    assert_eq!(span_of(r#"["metadata"]"#), Err(ResolveError::MissingMetadata));
    assert_eq!(span_of("17"), Err(ResolveError::MissingMetadata));
}

#[test]
fn missing_file_path_is_reported() {
    let line = r#"{"metadata":{"start_line":0,"end_line":2}}"#;
    assert_eq!(span_of(line), Err(ResolveError::MissingFilePath));
    let line = r#"{"metadata":{"file_path":7,"start_line":0,"end_line":2}}"#;
    assert_eq!(span_of(line), Err(ResolveError::MissingFilePath));
    assert_eq!(span_of(r#"{"metadata":{}}"#), Err(ResolveError::MissingFilePath));
}

#[test]
fn missing_end_line_is_reported() {
    let line = r#"{"metadata":{"file_path":"f.txt","start_line":0}}"#;
    assert_eq!(span_of(line), Err(ResolveError::MissingEndLine));
}

#[test]
fn line_numbers_must_be_unsigned_integers() {
    let line = r#"{"metadata":{"file_path":"f.txt","start_line":-1,"end_line":2}}"#;
    assert_eq!(span_of(line), Err(ResolveError::MissingStartLine));
    let line = r#"{"metadata":{"file_path":"f.txt","start_line":"0","end_line":2}}"#;
    assert_eq!(span_of(line), Err(ResolveError::MissingStartLine));
    let line = r#"{"metadata":{"file_path":"f.txt","start_line":0,"end_line":2.5}}"#;
    assert_eq!(span_of(line), Err(ResolveError::MissingEndLine));
    let line = r#"{"metadata":{"file_path":"f.txt","start_line":0,"end_line":18446744073709551615}}"#;
    assert_eq!(span_of(line).unwrap().end_line, u64::MAX);
}

#[test]
fn malformed_json_is_reported() {
    assert_eq!(span_of("{not json"), Err(ResolveError::MalformedJson));
    assert_eq!(span_of(""), Err(ResolveError::MalformedJson));
    assert!(parse_record(r#"{"a":1} trailing"#).is_err());
    assert!(parse_record(r#"{"a":1}"#).is_ok());
}

#[test]
fn members_are_read_as_far_as_they_are_there() {
    let record = parse_record(r#"{"metadata":{"file_path":"p","start_line":4}}"#).unwrap();
    assert_eq!(
        read_metadata(&record),
        Some(MetadataFields { file_path: Some(String::from("p")), start_line: Some(4), end_line: None })
    );
    let record = parse_record(r#"{"metadata":[1,2]}"#).unwrap();
    assert_eq!(read_metadata(&record), None);
}

#[test]
fn the_first_thing_missing_is_the_one_reported() {
    assert_eq!(resolve_metadata(None), Err(ResolveError::MissingMetadata));
    let nothing = MetadataFields { file_path: None, start_line: None, end_line: None };
    assert_eq!(resolve_metadata(Some(nothing)), Err(ResolveError::MissingFilePath));
    let path_only =
        MetadataFields { file_path: Some(String::from("f")), start_line: None, end_line: None };
    assert_eq!(resolve_metadata(Some(path_only)), Err(ResolveError::MissingStartLine));
    let no_path = MetadataFields { file_path: None, start_line: Some(1), end_line: Some(2) };
    assert_eq!(resolve_metadata(Some(no_path)), Err(ResolveError::MissingFilePath));
    let no_end =
        MetadataFields { file_path: Some(String::from("f")), start_line: Some(1), end_line: None };
    assert_eq!(resolve_metadata(Some(no_end)), Err(ResolveError::MissingEndLine));
    let all =
        MetadataFields { file_path: Some(String::from("f")), start_line: Some(1), end_line: Some(2) };
    assert_eq!(
        resolve_metadata(Some(all)),
        Ok(DocumentSpan { file_path: String::from("f"), start_line: 1, end_line: 2 })
    );
}

#[test]
fn each_error_has_its_message() {
    assert_eq!(ResolveError::MalformedJson.message(), "Malformed JSON");
    assert_eq!(ResolveError::MissingMetadata.message(), "Missing metadata");
    assert_eq!(ResolveError::MissingFilePath.message(), "Missing file_path");
    assert_eq!(ResolveError::MissingStartLine.message(), "Missing start_line");
    assert_eq!(ResolveError::MissingEndLine.message(), "Missing end_line");
}

#[test]
fn document_text_of_a_span_past_the_file_is_clipped() {
    let span = DocumentSpan { file_path: String::from("f.txt"), start_line: 1, end_line: 9 };
    assert_eq!(document_text(&span, "a\r\nb\r\nc\r\n"), "b\nc");
    let span = DocumentSpan { file_path: String::from("f.txt"), start_line: 5, end_line: 9 };
    assert_eq!(document_text(&span, "a\nb"), "");
    let span = DocumentSpan { file_path: String::from("f.txt"), start_line: 2, end_line: 1 };
    assert_eq!(document_text(&span, "a\nb\nc"), "");
}
