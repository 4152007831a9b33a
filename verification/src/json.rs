//! Reading single values out of JSON documents.
use crate::plan_model;
use crate::text;
use serde_json::Value;
use vstd::prelude::*;

verus! {

/// The text at a pointer of a JSON document; none where the document is no JSON, or where
/// something else or nothing stands there.
pub uninterp spec fn json_text_at(document: Seq<char>, pointer: Seq<char>) -> Option<Seq<char>>;

/// The truth value at a pointer of a JSON document.
pub uninterp spec fn json_bool_at(document: Seq<char>, pointer: Seq<char>) -> Option<bool>;

/// The integer at a pointer of a JSON document, where it fits into 64 bits.
pub uninterp spec fn json_integer_at(document: Seq<char>, pointer: Seq<char>) -> Option<i64>;

/// The texts of a JSON array; none where the document is no array of texts.
pub uninterp spec fn json_texts(document: Seq<char>) -> Option<Seq<Seq<char>>>;

/// Optional texts.
pub open spec fn opt_texts(o: Option<Vec<String>>) -> Option<Seq<Seq<char>>> {
    match o {
        Some(v) => Some(text::views(v@)),
        None => None,
    }
}

/// `serde_json::from_str` into a list of texts: the result goes by the document alone.
#[verifier::external_body]
pub(crate) fn texts_of(document: &str) -> (r: Option<Vec<String>>)
    ensures
        opt_texts(r) == json_texts(document@),
{
    serde_json::from_str::<Vec<String>>(document).ok()
}

/// `serde_json::from_str` into a `Value`, `Value::pointer` and `Value::as_str`, one after
/// the other: the result goes by the document and the pointer alone.
#[verifier::external_body]
pub(crate) fn text_at(document: &str, pointer: &str) -> (r: Option<String>)
    ensures
        plan_model::opt(r) == json_text_at(document@, pointer@),
{
    let value = serde_json::from_str::<Value>(document).ok()?;
    value.pointer(pointer).and_then(Value::as_str).map(str::to_owned)
}

/// `serde_json::from_str` into a `Value`, `Value::pointer` and `Value::as_bool`, one after
/// the other: the result goes by the document and the pointer alone.
#[verifier::external_body]
pub(crate) fn bool_at(document: &str, pointer: &str) -> (r: Option<bool>)
    ensures
        r == json_bool_at(document@, pointer@),
{
    let value = serde_json::from_str::<Value>(document).ok()?;
    value.pointer(pointer).and_then(Value::as_bool)
}

/// `serde_json::from_str` into a `Value`, `Value::pointer` and `Value::as_i64`, one after
/// the other: the result goes by the document and the pointer alone.
#[verifier::external_body]
pub(crate) fn integer_at(document: &str, pointer: &str) -> (r: Option<i64>)
    ensures
        r == json_integer_at(document@, pointer@),
{
    let value = serde_json::from_str::<Value>(document).ok()?;
    value.pointer(pointer).and_then(Value::as_i64)
}

} // verus!
