//! The JSON documents that the `ip` tool prints, read with `serde_json`.
//!
//! A document stays a `serde_json::Value`. What it holds is known to the
//! verifier only through three names, `json_items`, `json_member` and
//! `json_text`, and through the contracts below, which are taken on trust
//! from `serde_json`'s source.

use vstd::prelude::*;

verus! {

#[verifier::external_type_specification]
#[verifier::external_body]
pub struct ExValue(serde_json::Value);

/// The document that `serde_json` reads from a text, if it reads one.
pub uninterp spec fn json_document(text: Seq<char>) -> Option<serde_json::Value>;

/// The elements of a JSON array, in order; `None` for any other value.
pub uninterp spec fn json_items(value: serde_json::Value) -> Option<Seq<serde_json::Value>>;

/// The member of a JSON object under a key; `None` where the object has no
/// such key and for any value that is not an object.
pub uninterp spec fn json_member(value: serde_json::Value, key: Seq<char>) -> Option<
    serde_json::Value,
>;

/// The characters of a JSON string; `None` for any other value.
pub uninterp spec fn json_text(value: serde_json::Value) -> Option<Seq<char>>;

/// `serde_json::from_str` at the type `serde_json::Value`: the text is read
/// as one JSON document. The same text always gives the same document, and
/// a text that is no JSON document gives none.
#[verifier::external_body]
pub(crate) fn read_document(text: &str) -> (document: Option<serde_json::Value>)
    ensures
        document == json_document(text@),
{
    match serde_json::from_str::<serde_json::Value>(text) {
        Ok(value) => Some(value),
        Err(_) => None,
    }
}

/// `serde_json::Value::as_array`: the vector inside an array value, and
/// `None` for every other kind of value.
pub assume_specification[ serde_json::Value::as_array ](value: &serde_json::Value) -> (items:
    Option<&Vec<serde_json::Value>>)
    ensures
        json_items(*value) == match items {
            Some(found) => Some(found@),
            None => None,
        },
;

/// `serde_json::Value::as_str`: the string inside a string value, and
/// `None` for every other kind of value.
pub assume_specification[ serde_json::Value::as_str ](value: &serde_json::Value) -> (text: Option<
    &str,
>)
    ensures
        json_text(*value) == match text {
            Some(found) => Some(found@),
            None => None,
        },
;

/// `serde_json::Value::get` with a string key: the member of an object under
/// that key, and `None` where the key is absent or the value is no object.
#[verifier::external_body]
pub(crate) fn member<'a>(value: &'a serde_json::Value, key: &str) -> (found: Option<
    &'a serde_json::Value,
>)
    ensures
        json_member(*value, key@) == match found {
            Some(inner) => Some(*inner),
            None => None,
        },
{
    value.get(key)
}

/// The text under a key of an object, where the member is a string.
pub open spec fn member_text(value: serde_json::Value, key: Seq<char>) -> Option<Seq<char>> {
    match json_member(value, key) {
        Some(inner) => json_text(inner),
        None => None,
    }
}

/// Reads the string member under `key`.
pub fn text_member(value: &serde_json::Value, key: &str) -> (text: Option<String>)
    ensures
        match text {
            Some(found) => member_text(*value, key@) == Some(found@),
            None => member_text(*value, key@) is None,
        },
{
    match member(value, key) {
        Some(inner) => match inner.as_str() {
            Some(found) => Some(found.to_owned()),
            None => None,
        },
        None => None,
    }
}

} // verus!
