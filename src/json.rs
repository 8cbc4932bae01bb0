//! Reading JSON documents through serde_json. What serde_json makes of a
//! document depends on its bytes alone, so each member the library reads is
//! named as a function of the document's bytes.

use vstd::prelude::*;

verus! {

/// Whether the bytes hold one JSON document, as serde_json judges it.
pub uninterp spec fn is_json(doc: Seq<u8>) -> bool;

/// The string member `key` of the document's top-level object.
pub uninterp spec fn str_member(doc: Seq<u8>, key: Seq<char>) -> Option<Seq<char>>;

/// The member `key` of the document's top-level object, when it is an
/// integer that fits a `u64`.
pub uninterp spec fn u64_member(doc: Seq<u8>, key: Seq<char>) -> Option<u64>;

/// The boolean member `key` of the document's top-level object.
pub uninterp spec fn bool_member(doc: Seq<u8>, key: Seq<char>) -> Option<bool>;

/// The compact JSON text of each element of the array member `key` of the
/// document's top-level object.
pub uninterp spec fn array_member_texts(doc: Seq<u8>, key: Seq<char>) -> Option<Seq<Seq<char>>>;

/// The string member `inner` of the object member `outer` of the document's
/// top-level object.
pub uninterp spec fn nested_str_member(doc: Seq<u8>, outer: Seq<char>, inner: Seq<char>) -> Option<
    Seq<char>,
>;

/// The string at `data.result[0].value[1]` of a metrics query answer.
pub uninterp spec fn query_sample_text(doc: Seq<u8>) -> Option<Seq<char>>;

pub open spec fn opt_view(o: Option<String>) -> Option<Seq<char>> {
    match o {
        Some(s) => Some(s@),
        None => None,
    }
}

pub open spec fn string_views(v: Seq<String>) -> Seq<Seq<char>> {
    v.map_values(|s: String| s@)
}

/// Relies on `serde_json::from_slice::<Value>`: whether it succeeds depends
/// on the bytes alone.
#[verifier::external_body]
pub(crate) fn json_parses(doc: &[u8]) -> (r: bool)
    ensures
        r == is_json(doc@),
{
    serde_json::from_slice::<serde_json::Value>(doc).is_ok()
}

/// Relies on `serde_json::from_slice::<Value>`, `Value::get` with a string
/// key and `Value::as_str`: a string member of the top-level object.
#[verifier::external_body]
pub(crate) fn str_member_of(doc: &[u8], key: &str) -> (r: Option<String>)
    ensures
        opt_view(r) == str_member(doc@, key@),
        !is_json(doc@) ==> r is None,
{
    let v: serde_json::Value = serde_json::from_slice(doc).ok()?;
    v.get(key)?.as_str().map(String::from)
}

/// Relies on `serde_json::from_slice::<Value>`, `Value::get` with a string
/// key and `Value::as_u64`: an unsigned integer member of the top-level
/// object.
#[verifier::external_body]
pub(crate) fn u64_member_of(doc: &[u8], key: &str) -> (r: Option<u64>)
    ensures
        r == u64_member(doc@, key@),
        !is_json(doc@) ==> r is None,
{
    let v: serde_json::Value = serde_json::from_slice(doc).ok()?;
    v.get(key)?.as_u64()
}

/// Relies on `serde_json::from_slice::<Value>`, `Value::get` with a string
/// key and `Value::as_bool`: a boolean member of the top-level object.
#[verifier::external_body]
pub(crate) fn bool_member_of(doc: &[u8], key: &str) -> (r: Option<bool>)
    ensures
        r == bool_member(doc@, key@),
        !is_json(doc@) ==> r is None,
{
    let v: serde_json::Value = serde_json::from_slice(doc).ok()?;
    v.get(key)?.as_bool()
}

/// Relies on `serde_json::from_slice::<Value>`, `Value::get` with a string
/// key, `Value::as_array` and `Value`'s `Display` (compact JSON text): the
/// text of each element of an array member of the top-level object.
#[verifier::external_body]
pub(crate) fn array_member_texts_of(doc: &[u8], key: &str) -> (r: Option<Vec<String>>)
    ensures
        match r {
            Some(v) => array_member_texts(doc@, key@) == Some(string_views(v@)),
            None => array_member_texts(doc@, key@) is None,
        },
        !is_json(doc@) ==> r is None,
{
    let v: serde_json::Value = serde_json::from_slice(doc).ok()?;
    Some(v.get(key)?.as_array()?.iter().map(serde_json::Value::to_string).collect())
}

/// Relies on `serde_json::from_slice::<Value>`, `Value::get` with string
/// keys and `Value::as_str`: a string member of an object member of the
/// top-level object.
#[verifier::external_body]
pub(crate) fn nested_str_member_of(doc: &[u8], outer: &str, inner: &str) -> (r: Option<String>)
    ensures
        opt_view(r) == nested_str_member(doc@, outer@, inner@),
        !is_json(doc@) ==> r is None,
{
    let v: serde_json::Value = serde_json::from_slice(doc).ok()?;
    v.get(outer)?.get(inner)?.as_str().map(String::from)
}

/// Relies on `serde_json::from_slice::<Value>`, `Value::get` with string
/// keys and indices, and `Value::as_str`: the string at
/// `data.result[0].value[1]`.
#[verifier::external_body]
pub(crate) fn query_sample_text_of(doc: &[u8]) -> (r: Option<String>)
    ensures
        opt_view(r) == query_sample_text(doc@),
        !is_json(doc@) ==> r is None,
{
    let v: serde_json::Value = serde_json::from_slice(doc).ok()?;
    v.get("data")?.get("result")?.get(0)?.get("value")?.get(1)?.as_str().map(String::from)
}

} // verus!
