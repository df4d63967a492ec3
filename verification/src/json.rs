//! JSON documents carried by sessions, executions, events and messages, and
//! the few reads the store makes of them, all done by `serde_json`.
use vstd::prelude::*;

use serde_json::Value;

verus! {

/// `serde_json::Value`, carried through the store as an opaque document.
#[verifier::external_type_specification]
#[verifier::external_body]
pub struct ExJsonValue(serde_json::Value);

/// `serde_json::Error`, the reason a text is not a JSON document.
#[verifier::external_type_specification]
#[verifier::external_body]
pub struct ExJsonError(serde_json::Error);

/// Calls `<Value as Clone>::clone`. The contract claims that the copy is the
/// same document as the one copied.
#[verifier::external_body]
pub(crate) fn clone_json(v: &Value) -> (r: Value)
    ensures
        r == *v,
{
    v.clone()
}

/// The member `key` of document `doc`, as `serde_json::Value::get` finds it:
/// present only in an object.
pub uninterp spec fn json_member_of(doc: Value, key: Seq<char>) -> Option<Value>;

/// Calls `serde_json::Value::get` with a member name and copies the member.
/// The contract names the member by the document and the name.
#[verifier::external_body]
pub(crate) fn json_member(v: &Value, key: &str) -> (r: Option<Value>)
    ensures
        r == json_member_of(*v, key@),
{
    v.get(key).cloned()
}

/// The unsigned integer a document holds, as `serde_json::Value::as_u64`
/// reads it.
pub uninterp spec fn json_u64_of(v: Value) -> Option<u64>;

/// Calls `serde_json::Value::as_u64`; the contract names its result.
#[verifier::external_body]
pub(crate) fn json_as_u64(v: &Value) -> (r: Option<u64>)
    ensures
        r == json_u64_of(*v),
{
    v.as_u64()
}

/// The signed integer a document holds, as `serde_json::Value::as_i64`
/// reads it.
pub uninterp spec fn json_i64_of(v: Value) -> Option<i64>;

/// Calls `serde_json::Value::as_i64`; the contract names its result.
#[verifier::external_body]
pub(crate) fn json_as_i64(v: &Value) -> (r: Option<i64>)
    ensures
        r == json_i64_of(*v),
{
    v.as_i64()
}

/// The boolean a document holds, as `serde_json::Value::as_bool` reads it.
pub uninterp spec fn json_bool_of(v: Value) -> Option<bool>;

/// Calls `serde_json::Value::as_bool`; the contract names its result.
#[verifier::external_body]
pub(crate) fn json_as_bool(v: &Value) -> (r: Option<bool>)
    ensures
        r == json_bool_of(*v),
{
    v.as_bool()
}

/// The text a document holds, as `serde_json::Value::as_str` reads it.
pub uninterp spec fn json_str_of(v: Value) -> Option<Seq<char>>;

/// Calls `serde_json::Value::as_str` and copies the text; the contract
/// names the text.
#[verifier::external_body]
pub(crate) fn json_as_string(v: &Value) -> (r: Option<String>)
    ensures
        match r {
            Some(s) => json_str_of(*v) == Some(s@),
            None => json_str_of(*v) is None,
        },
{
    v.as_str().map(|s| s.to_owned())
}

/// The document is an object, as `serde_json::Value::is_object` tells.
pub uninterp spec fn json_is_object_of(v: Value) -> bool;

/// The items of a document that is an array, `None` for any other.
pub uninterp spec fn json_items_of(v: Value) -> Option<Seq<Value>>;

/// Tells a `Value::Array` apart from the other variants, moving the items
/// out, or handing the document back unchanged; the contract names which.
#[verifier::external_body]
pub(crate) fn json_into_array(v: Value) -> (r: Result<Vec<Value>, Value>)
    ensures
        match r {
            Ok(items) => json_items_of(v) == Some(items@),
            Err(other) => json_items_of(v) is None && other == v,
        },
{
    match v {
        Value::Array(items) => Ok(items),
        other => Err(other),
    }
}

/// The document a text holds, as `serde_json::from_str::<Value>` reads it;
/// `None` where the text is not one JSON document.
pub uninterp spec fn json_document_of(text: Seq<char>) -> Option<Value>;

/// Calls `serde_json::from_str::<Value>`; the contract names the document.
/// What the error says is not stated.
#[verifier::external_body]
pub(crate) fn json_parse(text: &str) -> (r: Result<Value, serde_json::Error>)
    ensures
        match r {
            Ok(v) => json_document_of(text@) == Some(v),
            Err(_) => json_document_of(text@) is None,
        },
{
    serde_json::from_str::<Value>(text)
}

/// Builds `Value::Object` of an empty `serde_json::Map`. The contract
/// claims what an empty object is: an object, not an array, with no member.
#[verifier::external_body]
pub(crate) fn empty_object() -> (r: Value)
    ensures
        json_is_object_of(r),
        json_items_of(r) is None,
        forall|key: Seq<char>| json_member_of(r, key) is None,
{
    Value::Object(serde_json::Map::new())
}

/// The metadata to store: the given document, or an empty object.
pub fn default_metadata(metadata: Option<Value>) -> (r: Value)
    ensures
        match metadata {
            Some(m) => r == m,
            None => json_is_object_of(r) && json_items_of(r) is None && forall|key: Seq<char>|
                json_member_of(r, key) is None,
        },
{
    match metadata {
        Some(m) => m,
        None => empty_object(),
    }
}

/// The parts of a message as a list: the items of an array, or the
/// document itself alone.
pub open spec fn parts_list(parts: Value) -> Seq<Value> {
    match json_items_of(parts) {
        Some(items) => items,
        None => seq![parts],
    }
}

/// A document of one list: the items of an array, or the document itself.
pub fn normalize_parts(parts: Value) -> (r: Vec<Value>)
    ensures
        r@ == parts_list(parts),
{
    match json_into_array(parts) {
        Ok(items) => items,
        Err(other) => {
            let mut v: Vec<Value> = Vec::new();
            v.push(other);
            v
        },
    }
}

} // verus!
