//! Reading a document from JSON text.

use crate::json::{Json, JsonValue, Member};
use vstd::prelude::*;

verus! {

#[verifier::external_type_specification]
#[verifier::external_body]
pub struct ExValue(serde_json::Value);

#[verifier::external_type_specification]
#[verifier::external_body]
pub struct ExError(serde_json::Error);

/// What `text` holds as JSON: `None` where it is not valid JSON.
///
/// The text is parsed outside this crate; nothing is known of the result
/// here beyond what `parse_value` states.
pub uninterp spec fn parsed(text: Seq<char>) -> Option<JsonValue>;

/// The JSON tree that a parsed value holds, a number by its decimal text.
pub uninterp spec fn value_tree(value: serde_json::Value) -> JsonValue;

/// Calls `serde_json::from_str` for a `serde_json::Value`.
///
/// Trusted: the call succeeds exactly on valid JSON, the value returned holds
/// what the text says, and both depend on the text alone.
#[verifier::external_body]
fn parse_value(text: &str) -> (result: Result<serde_json::Value, serde_json::Error>)
    ensures
        match result {
            Ok(value) => parsed(text@) == Some(value_tree(value)),
            Err(_) => parsed(text@) is None,
        },
{
    serde_json::from_str::<serde_json::Value>(text)
}

/// Takes a `serde_json::Value` apart, variant by variant, into a `Json`.
///
/// Trusted: the tree returned is the one that the value holds.
#[verifier::external_body]
fn json_of_value(value: serde_json::Value) -> (json: Json)
    ensures
        json@ == value_tree(value),
{
    match value {
        serde_json::Value::Null => Json::Null,
        serde_json::Value::Bool(b) => Json::Bool(b),
        serde_json::Value::Number(n) => Json::Number(n.to_string()),
        serde_json::Value::String(s) => Json::Text(s),
        serde_json::Value::Array(items) => Json::Array(
            items.into_iter().map(json_of_value).collect(),
        ),
        serde_json::Value::Object(members) => Json::Object(
            members.into_iter().map(|(key, v)| Member { key, value: json_of_value(v) }).collect(),
        ),
    }
}

/// Calls `to_string` on a `serde_json::Error`: the parser's own message,
/// with the line and column of the fault.
#[verifier::external_body]
fn describe(error: &serde_json::Error) -> (message: String) {
    error.to_string()
}

/// The document text is not valid JSON.
#[derive(Debug)]
pub struct DocumentParseError {
    /// What the parser found, with the line and column.
    pub message: String,
}

/// Parses a JSON document.
///
/// Succeeds exactly on valid JSON, with the tree that the text describes.
pub fn parse_document(text: &str) -> (result: Result<Json, DocumentParseError>)
    ensures
        match result {
            Ok(document) => parsed(text@) == Some(document@),
            Err(_) => parsed(text@) is None,
        },
{
    match parse_value(text) {
        Ok(value) => Ok(json_of_value(value)),
        Err(error) => Err(DocumentParseError { message: describe(&error) }),
    }
}

} // verus!
