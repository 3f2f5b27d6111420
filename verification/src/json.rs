//! JSON values as `serde_json` holds them, and the few questions this library
//! asks of them. Nothing in this file is proved: each contract states what the
//! named function of `serde_json` does.

use vstd::prelude::*;

verus! {

/// `serde_json::Value`, carried through as it is.
#[verifier::external_type_specification]
#[verifier::external_body]
pub struct ExValue(serde_json::Value);

/// `serde_json::Error`, carried through as it is.
#[verifier::external_type_specification]
#[verifier::external_body]
pub struct ExError(serde_json::Error);

/// The document that the bytes of a text hold, or `None` where they are not
/// one JSON document.
pub uninterp spec fn document_of(bytes: Seq<u8>) -> Option<serde_json::Value>;

/// The value under `key` where `value` is an object that has the key.
pub uninterp spec fn member_of(value: serde_json::Value, key: Seq<char>) -> Option<serde_json::Value>;

/// The boolean that `value` is, or `None` where it is anything else.
pub uninterp spec fn bool_of(value: serde_json::Value) -> Option<bool>;

/// The string that `value` is, or `None` where it is anything else.
pub uninterp spec fn text_of(value: serde_json::Value) -> Option<Seq<char>>;

/// The items of the array that `value` is, or `None` where it is anything else.
pub uninterp spec fn items_of(value: serde_json::Value) -> Option<Seq<serde_json::Value>>;

/// `serde_json::from_slice` at `serde_json::Value`: the document that the
/// bytes hold, or the crate's error where they are not one JSON document. The
/// outcome depends on the bytes alone.
#[verifier::external_body]
pub(crate) fn parse_document(bytes: &[u8]) -> (r: Result<serde_json::Value, serde_json::Error>)
    ensures
        match r {
            Ok(value) => document_of(bytes@) == Some(value),
            Err(_) => document_of(bytes@).is_none(),
        },
{
    serde_json::from_slice::<serde_json::Value>(bytes)
}

/// `serde_json::Value::get` with a string key: the member under that key of an
/// object, `None` for a missing key and for a value that is no object.
#[verifier::external_body]
pub(crate) fn member<'a>(value: &'a serde_json::Value, key: &str) -> (r: Option<&'a serde_json::Value>)
    ensures
        match r {
            Some(found) => member_of(*value, key@) == Some(*found),
            None => member_of(*value, key@).is_none(),
        },
{
    value.get(key)
}

/// `serde_json::Value::as_bool`: the boolean of a `Bool`, `None` for every
/// other variant.
pub assume_specification[ serde_json::Value::as_bool ](value: &serde_json::Value) -> (r: Option<bool>)
    ensures
        r == bool_of(*value),
;

/// `serde_json::Value::as_str`: the text of a `String`, `None` for every other
/// variant.
pub assume_specification<'a>[ serde_json::Value::as_str ](value: &'a serde_json::Value) -> (r: Option<&'a str>)
    ensures
        match r {
            Some(text) => text_of(*value) == Some(text@),
            None => text_of(*value).is_none(),
        },
;

/// `serde_json::Value::as_array`: the vector of an `Array`, `None` for every
/// other variant.
pub assume_specification<'a>[ serde_json::Value::as_array ](value: &'a serde_json::Value) -> (r: Option<&'a Vec<serde_json::Value>>)
    ensures
        match r {
            Some(items) => items_of(*value) == Some(items@),
            None => items_of(*value).is_none(),
        },
;

/// `Clone::clone` of `serde_json::Value`: a value equal to the one given.
#[verifier::external_body]
pub(crate) fn copy_value(value: &serde_json::Value) -> (r: serde_json::Value)
    ensures
        r == *value,
{
    value.clone()
}

} // verus!
