//! Resolving a rerank record to the lines of the file that it points at.

use crate::lines::{extract_lines, joined_lines};
use serde_json::Value;
use vstd::prelude::*;

verus! {

/// `serde_json::Value`: a JSON value, seen through `json_view` alone.
#[verifier::external_type_specification]
#[verifier::external_body]
pub struct ExValue(serde_json::Value);

/// `serde_json::Error`: why a text is no JSON; carried as it is.
#[verifier::external_type_specification]
#[verifier::external_body]
pub struct ExJsonError(serde_json::Error);

/// What a JSON value holds, as far as the resolver looks at it.
pub enum JsonModel {
    Null,
    Bool(bool),
    /// A number; the field is its value where it is an integer from 0 to
    /// `u64::MAX`, and `None` for any other number.
    Number(Option<u64>),
    Text(Seq<char>),
    Array(Seq<JsonModel>),
    Object(Map<Seq<char>, JsonModel>),
}

/// What a `serde_json::Value` holds.
pub uninterp spec fn json_view(value: Value) -> JsonModel;

/// What the JSON text `line` spells; `None` where it is no JSON value.
pub uninterp spec fn json_parsed(line: Seq<char>) -> Option<JsonModel>;

/// The member `key` of an object; `None` for a value that is no object or
/// has no such member.
pub open spec fn member_of(model: JsonModel, key: Seq<char>) -> Option<JsonModel> {
    match model {
        JsonModel::Object(members) => if members.contains_key(key) {
            Some(members[key])
        } else {
            None
        },
        _ => None,
    }
}

/// The text of a JSON string; `None` for any other value.
pub open spec fn text_of(model: JsonModel) -> Option<Seq<char>> {
    match model {
        JsonModel::Text(text) => Some(text),
        _ => None,
    }
}

/// The value of a JSON number that is an integer from 0 to `u64::MAX`;
/// `None` for any other value.
pub open spec fn unsigned_of(model: JsonModel) -> Option<u64> {
    match model {
        JsonModel::Number(n) => n,
        _ => None,
    }
}

/// `serde_json::from_str` at the type `Value`: the value that `line` spells,
/// or an error where it spells none. The outcome depends on `line` alone.
#[verifier::external_body]
fn parse_json(line: &str) -> (parsed: Result<Value, serde_json::Error>)
    ensures
        match parsed {
            Ok(value) => json_parsed(line@) == Some(json_view(value)),
            Err(_) => json_parsed(line@) is None,
        },
{
    serde_json::from_str::<Value>(line)
}

/// `Value::get` with a text key: the member `key` where `value` is an object
/// that has it, else `None`.
#[verifier::external_body]
fn json_member<'a>(value: &'a Value, key: &str) -> (member: Option<&'a Value>)
    ensures
        match member {
            Some(found) => member_of(json_view(*value), key@) == Some(json_view(*found)),
            None => member_of(json_view(*value), key@) is None,
        },
{
    value.get(key)
}

/// `Value::is_object`: whether `value` is a JSON object.
#[verifier::external_body]
fn json_is_object(value: &Value) -> (is_object: bool)
    ensures
        is_object == (json_view(*value) is Object),
{
    value.is_object()
}

/// `Value::as_str`: the text where `value` is a JSON string, else `None`.
#[verifier::external_body]
fn json_text(value: &Value) -> (text: Option<String>)
    ensures
        match text {
            Some(t) => text_of(json_view(*value)) == Some(t@),
            None => text_of(json_view(*value)) is None,
        },
{
    match value.as_str() {
        Some(text) => Some(text.to_owned()),
        None => None,
    }
}

/// `Value::as_u64`: the number where `value` is an integer from 0 to
/// `u64::MAX`, else `None`.
#[verifier::external_body]
fn json_unsigned(value: &Value) -> (number: Option<u64>)
    ensures
        number == unsigned_of(json_view(*value)),
{
    value.as_u64()
}

/// Why a record could not be resolved.
#[derive(Debug, Clone, Copy, PartialEq, Eq, Structural)]
pub enum ResolveError {
    /// The line is not JSON.
    MalformedJson,
    /// The record has no `metadata` object.
    MissingMetadata,
    /// `metadata.file_path` is absent or no text.
    MissingFilePath,
    /// `metadata.start_line` is absent or no unsigned integer.
    MissingStartLine,
    /// `metadata.end_line` is absent or no unsigned integer.
    MissingEndLine,
}

impl ResolveError {
    /// The message of each error.
    pub open spec fn message_of(self) -> Seq<char> {
        match self {
            ResolveError::MalformedJson => "Malformed JSON"@,
            ResolveError::MissingMetadata => "Missing metadata"@,
            ResolveError::MissingFilePath => "Missing file_path"@,
            ResolveError::MissingStartLine => "Missing start_line"@,
            ResolveError::MissingEndLine => "Missing end_line"@,
        }
    }

    /// The message that goes with the error when the run is aborted.
    pub fn message(&self) -> (text: String)
        ensures
            text@ == self.message_of(),
    {
        match self {
            ResolveError::MalformedJson => "Malformed JSON".to_owned(),
            ResolveError::MissingMetadata => "Missing metadata".to_owned(),
            ResolveError::MissingFilePath => "Missing file_path".to_owned(),
            ResolveError::MissingStartLine => "Missing start_line".to_owned(),
            ResolveError::MissingEndLine => "Missing end_line".to_owned(),
        }
    }
}

/// What a record's `metadata` object holds of the three members that the
/// resolver reads; `None` for a member that is absent or of the wrong kind.
#[derive(Debug, PartialEq, Eq)]
pub struct MetadataFields {
    pub file_path: Option<String>,
    pub start_line: Option<u64>,
    pub end_line: Option<u64>,
}

/// `MetadataFields` with the path as a sequence of characters.
pub struct MetadataModel {
    pub file_path: Option<Seq<char>>,
    pub start_line: Option<u64>,
    pub end_line: Option<u64>,
}

impl View for MetadataFields {
    type V = MetadataModel;

    open spec fn view(&self) -> MetadataModel {
        MetadataModel {
            file_path: match self.file_path {
                Some(path) => Some(path@),
                None => None,
            },
            start_line: self.start_line,
            end_line: self.end_line,
        }
    }
}

/// The lines of a file that make up a document: from `start_line` up to, not
/// including, `end_line`.
#[derive(Debug, PartialEq, Eq)]
pub struct DocumentSpan {
    pub file_path: String,
    pub start_line: u64,
    pub end_line: u64,
}

/// `DocumentSpan` with the path as a sequence of characters.
pub struct SpanModel {
    pub file_path: Seq<char>,
    pub start_line: u64,
    pub end_line: u64,
}

impl View for DocumentSpan {
    type V = SpanModel;

    open spec fn view(&self) -> SpanModel {
        SpanModel {
            file_path: self.file_path@,
            start_line: self.start_line,
            end_line: self.end_line,
        }
    }
}

/// The model of metadata that may be absent.
pub open spec fn fields_model(metadata: Option<MetadataFields>) -> Option<MetadataModel> {
    match metadata {
        Some(fields) => Some(fields@),
        None => None,
    }
}

/// The model of the outcome of resolving.
pub open spec fn outcome_model(span: Result<DocumentSpan, ResolveError>) -> Result<
    SpanModel,
    ResolveError,
> {
    match span {
        Ok(span) => Ok(span@),
        Err(e) => Err(e),
    }
}

/// What a record holds for the resolver: nothing where `metadata` is absent
/// or no object, else its members `file_path`, as far as it is a text, and
/// `start_line` and `end_line`, as far as they are unsigned integers.
pub open spec fn metadata_of(record: JsonModel) -> Option<MetadataModel> {
    match member_of(record, "metadata"@) {
        Some(JsonModel::Object(members)) => Some(
            MetadataModel {
                file_path: match member_of(JsonModel::Object(members), "file_path"@) {
                    Some(value) => text_of(value),
                    None => None,
                },
                start_line: match member_of(JsonModel::Object(members), "start_line"@) {
                    Some(value) => unsigned_of(value),
                    None => None,
                },
                end_line: match member_of(JsonModel::Object(members), "end_line"@) {
                    Some(value) => unsigned_of(value),
                    None => None,
                },
            },
        ),
        _ => None,
    }
}

/// The span that a record's metadata gives, or the first thing missing:
/// the metadata itself, then the path, the start line, the end line.
pub open spec fn resolved(metadata: Option<MetadataModel>) -> Result<SpanModel, ResolveError> {
    match metadata {
        None => Err(ResolveError::MissingMetadata),
        Some(fields) => match (fields.file_path, fields.start_line, fields.end_line) {
            (None, _, _) => Err(ResolveError::MissingFilePath),
            (Some(_), None, _) => Err(ResolveError::MissingStartLine),
            (Some(_), Some(_), None) => Err(ResolveError::MissingEndLine),
            (Some(file_path), Some(start_line), Some(end_line)) => Ok(
                SpanModel { file_path, start_line, end_line },
            ),
        },
    }
}

/// What resolving the JSON text `line` gives: an error where it is no JSON,
/// else what its metadata resolves to.
pub open spec fn resolved_line(line: Seq<char>) -> Result<SpanModel, ResolveError> {
    match json_parsed(line) {
        None => Err(ResolveError::MalformedJson),
        Some(record) => resolved(metadata_of(record)),
    }
}

/// Resolves the metadata of a record to a span, or says what is missing.
pub fn resolve_metadata(metadata: Option<MetadataFields>) -> (span: Result<
    DocumentSpan,
    ResolveError,
>)
    ensures
        outcome_model(span) == resolved(fields_model(metadata)),
{
    let fields = match metadata {
        Some(fields) => fields,
        None => {
            return Err(ResolveError::MissingMetadata);
        },
    };
    let file_path = match fields.file_path {
        Some(file_path) => file_path,
        None => {
            return Err(ResolveError::MissingFilePath);
        },
    };
    let start_line = match fields.start_line {
        Some(start_line) => start_line,
        None => {
            return Err(ResolveError::MissingStartLine);
        },
    };
    let end_line = match fields.end_line {
        Some(end_line) => end_line,
        None => {
            return Err(ResolveError::MissingEndLine);
        },
    };
    Ok(DocumentSpan { file_path, start_line, end_line })
}

/// Reads a line of input as a JSON record; a line that is no JSON is
/// malformed.
pub fn parse_record(line: &str) -> (record: Result<Value, ResolveError>)
    ensures
        match record {
            Ok(value) => json_parsed(line@) == Some(json_view(value)),
            Err(e) => e == ResolveError::MalformedJson && json_parsed(line@) is None,
        },
{
    match parse_json(line) {
        Ok(value) => Ok(value),
        Err(_) => Err(ResolveError::MalformedJson),
    }
}

/// Reads from a record what the resolver needs: `None` where `metadata` is
/// absent or no object, else its three members as far as they are there.
pub fn read_metadata(item: &Value) -> (metadata: Option<MetadataFields>)
    ensures
        fields_model(metadata) == metadata_of(json_view(*item)),
{
    let metadata = match json_member(item, "metadata") {
        Some(metadata) => metadata,
        None => {
            return None;
        },
    };
    if !json_is_object(metadata) {
        return None;
    }
    let file_path = match json_member(metadata, "file_path") {
        Some(value) => json_text(value),
        None => None,
    };
    let start_line = match json_member(metadata, "start_line") {
        Some(value) => json_unsigned(value),
        None => None,
    };
    let end_line = match json_member(metadata, "end_line") {
        Some(value) => json_unsigned(value),
        None => None,
    };
    Some(MetadataFields { file_path, start_line, end_line })
}

/// The span of the document that a record points at, or what the record
/// lacks.
pub fn document_span(item: &Value) -> (span: Result<DocumentSpan, ResolveError>)
    ensures
        outcome_model(span) == resolved(metadata_of(json_view(*item))),
{
    resolve_metadata(read_metadata(item))
}

/// Resolves one line of input: parses it and finds the span of the document
/// that it points at.
pub fn resolve_line(line: &str) -> (span: Result<DocumentSpan, ResolveError>)
    ensures
        outcome_model(span) == resolved_line(line@),
{
    match parse_record(line) {
        Ok(record) => document_span(&record),
        Err(e) => Err(e),
    }
}

/// The text of a document: the lines of `content`, the text of the file at
/// the span's path, from the span's start line up to its end line, joined by
/// line feeds.
pub fn document_text(span: &DocumentSpan, content: &str) -> (text: String)
    ensures
        text@ == joined_lines(content@, span.start_line as nat, span.end_line as nat),
{
    extract_lines(content, span.start_line, span.end_line)
}

} // verus!
