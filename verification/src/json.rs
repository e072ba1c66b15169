//! The JSON documents that descriptors are read from and written to.
//!
//! Documents are `serde_json::Value`s. The verifier does not look inside
//! them: everything in this file is taken on trust from `serde_json`, and the
//! rest of the crate is proved against what is stated here.

use serde_json::Value;
use vstd::prelude::*;

verus! {

/// `serde_json::Value`: a JSON document, or a part of one. Opaque here.
#[verifier::external_type_specification]
#[verifier::external_body]
pub struct ExValue(serde_json::Value);

/// `serde_json::Error`: why a text was rejected. Opaque here.
#[verifier::external_type_specification]
#[verifier::external_body]
pub struct ExError(serde_json::Error);

/// The document that `serde_json::from_str` reads from `text`, or `None`
/// where it rejects the text.
pub uninterp spec fn json_parse(text: Seq<char>) -> Option<Value>;

/// What indexing `doc` with the string `key` yields: the member of that name
/// where `doc` is an object that has one, and JSON `null` otherwise.
pub uninterp spec fn json_member(doc: Value, key: Seq<char>) -> Value;

/// The elements of `value` where it is an array, as `Value::as_array` gives
/// them; `None` where it is anything else.
pub uninterp spec fn json_elements(value: Value) -> Option<Seq<Value>>;

/// The number in `value` as `Value::as_u64` gives it: `None` unless `value`
/// is an integer that a `u64` can hold.
pub uninterp spec fn json_u64(value: Value) -> Option<u64>;

/// The array of numbers that `Value::from` builds from a slice of `usize`.
pub uninterp spec fn json_unsigned_array(items: Seq<usize>) -> Value;

/// The object that collecting `entries` into a `Value` builds.
pub uninterp spec fn json_object(entries: Seq<(Seq<char>, Value)>) -> Value;

/// The text that `serde_json::to_string_pretty` renders `doc` to, or `None`
/// where it reports an error.
pub uninterp spec fn json_pretty(doc: Value) -> Option<Seq<char>>;

/// The entries of an object under construction, with each key as its
/// characters.
pub open spec fn entry_views(entries: Seq<(&'static str, Value)>) -> Seq<(Seq<char>, Value)> {
    entries.map_values(|entry: (&'static str, Value)| (entry.0@, entry.1))
}

/// `serde_json::from_str` at type `Value`. Trusted: the outcome depends on
/// the text alone, so it is `json_parse` of the text; the error carries only
/// a message and a position and is not described.
#[verifier::external_body]
pub(crate) fn parse_document(text: &str) -> (r: Result<Value, serde_json::Error>)
    ensures
        match json_parse(text@) {
            Some(doc) => r matches Ok(read) && read == doc,
            None => r is Err,
        },
{
    serde_json::from_str::<Value>(text)
}

/// `Value`'s `Index` by a string key, `doc[key]`. Trusted: it never panics
/// and returns the value called `json_member`.
#[verifier::external_body]
pub(crate) fn member<'a>(doc: &'a Value, key: &str) -> (r: &'a Value)
    ensures
        *r == json_member(*doc, key@),
{
    &doc[key]
}

/// `Value::as_array`. Trusted: it returns the vector inside an array and
/// `None` for anything else, which is what `json_elements` names.
pub assume_specification[ Value::as_array ](value: &Value) -> (r: Option<&Vec<Value>>)
    ensures
        match json_elements(*value) {
            Some(elements) => r matches Some(items) && items@ == elements,
            None => r is None,
        },
;

/// `Value::as_u64`. Trusted: its result is what `json_u64` names.
pub assume_specification[ Value::as_u64 ](value: &Value) -> (r: Option<u64>)
    ensures
        r == json_u64(*value),
;

/// `Value`'s derived `Clone`. Trusted: the copy is the same document.
pub assume_specification[ <Value as Clone>::clone ](value: &Value) -> (r: Value)
    ensures
        r == *value,
;

/// `Value::from` on a slice of `usize`. Trusted: the result depends on the
/// numbers alone and is the array called `json_unsigned_array`.
#[verifier::external_body]
pub(crate) fn unsigned_array(items: &[usize]) -> (r: Value)
    ensures
        r == json_unsigned_array(items@),
{
    Value::from(items)
}

/// `Value`'s `FromIterator` for pairs of key and value. Trusted: the result
/// depends on the entries alone and is the object called `json_object`.
#[verifier::external_body]
pub(crate) fn object(entries: Vec<(&'static str, Value)>) -> (r: Value)
    ensures
        r == json_object(entry_views(entries@)),
{
    entries.into_iter().collect()
}

/// `serde_json::to_string_pretty` on a `Value`. Trusted: the outcome depends
/// on the document alone, so it is `json_pretty` of the document.
#[verifier::external_body]
pub(crate) fn pretty(doc: &Value) -> (r: Result<String, serde_json::Error>)
    ensures
        match json_pretty(*doc) {
            Some(text) => r matches Ok(rendered) && rendered@ == text,
            None => r is Err,
        },
{
    serde_json::to_string_pretty(doc)
}

} // verus!
