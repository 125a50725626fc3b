//! The calls into `flate2` and `serde_json`, and what is taken on trust
//! about them.

use crate::json::{JsonModel, JsonValue};
use flate2::read::GzDecoder;
use std::io::Read;
use vstd::prelude::*;

verus! {

/// The error of the standard library's readers, as an opaque value.
#[verifier::external_type_specification]
#[verifier::external_body]
pub struct ExIoError(std::io::Error);

/// The error of `serde_json`, as an opaque value.
#[verifier::external_type_specification]
#[verifier::external_body]
pub struct ExJsonError(serde_json::Error);

/// The document tree of `serde_json`, as an opaque value.
#[verifier::external_type_specification]
#[verifier::external_body]
pub struct ExJsonTree(serde_json::Value);

/// The text that the gzip member at the start of `data` holds, where there
/// is one and it holds UTF-8 text.
pub uninterp spec fn gunzipped(data: Seq<u8>) -> Option<Seq<char>>;

/// What the JSON document `text` says, where `text` is one JSON document.
pub uninterp spec fn json_document(text: Seq<char>) -> Option<JsonModel>;

/// What a document tree of `serde_json` says.
pub uninterp spec fn tree_model(tree: serde_json::Value) -> JsonModel;

/// Trusted: `flate2::read::GzDecoder::new` over the bytes, read to the end
/// with `std::io::Read::read_to_string`. The outcome depends on the bytes
/// alone: either the text of the gzip member, or the error of the decoder
/// or of the UTF-8 check.
#[verifier::external_body]
pub(crate) fn gunzip(data: &Vec<u8>) -> (text: Result<String, std::io::Error>)
    ensures
        match text {
            Ok(held) => gunzipped(data@) == Some(held@),
            Err(_) => gunzipped(data@) is None,
        },
{
    let mut decoder = GzDecoder::new(data.as_slice());
    let mut text = String::with_capacity(1024 * 8);
    decoder.read_to_string(&mut text).map(|_| text)
}

/// Trusted: `serde_json::from_str` into a `serde_json::Value`. The outcome
/// depends on the text alone: either the tree of the document, or the
/// parser's error.
#[verifier::external_body]
pub(crate) fn parse_tree(text: &str) -> (tree: Result<serde_json::Value, serde_json::Error>)
    ensures
        match tree {
            Ok(held) => json_document(text@) == Some(tree_model(held)),
            Err(_) => json_document(text@) is None,
        },
{
    serde_json::from_str::<serde_json::Value>(text)
}

/// Trusted: takes a `serde_json::Value` apart, variant by variant, into a
/// value of this library that says the same. A number is rendered by
/// `serde_json::Number`'s `Display`; the members of an object come in the
/// order in which `serde_json::Map` hands them out.
#[verifier::external_body]
pub(crate) fn lift(tree: serde_json::Value) -> (json: JsonValue)
    ensures
        json.model() == tree_model(tree),
{
    match tree {
        serde_json::Value::Null => JsonValue::Null,
        serde_json::Value::Bool(flag) => JsonValue::Bool(flag),
        serde_json::Value::Number(number) => JsonValue::Number(number.to_string()),
        serde_json::Value::String(text) => JsonValue::Text(text),
        serde_json::Value::Array(items) => JsonValue::Array(items.into_iter().map(lift).collect()),
        serde_json::Value::Object(members) => JsonValue::Object(
            members.into_iter().map(|(name, value)| (name, lift(value))).collect(),
        ),
    }
}

/// Trusted: the `Display` text of an error of the standard library's
/// readers. Nothing is claimed of the text.
#[verifier::external_body]
pub(crate) fn io_error_text(error: &std::io::Error) -> (text: String) {
    error.to_string()
}

/// Trusted: the `Display` text of an error of `serde_json`. Nothing is
/// claimed of the text.
#[verifier::external_body]
pub(crate) fn json_error_text(error: &serde_json::Error) -> (text: String) {
    error.to_string()
}

} // verus!
