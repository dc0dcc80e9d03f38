//! A model of JSON values, and bindings to `serde_json` for parsing and
//! reading them.
//!
//! A parsed `serde_json::Value` is opaque here; what it holds is named by
//! [`value_model`], and each binding states what the corresponding
//! `serde_json` accessor yields in terms of that model.  Numbers are
//! abstracted to a bare [`Json::Num`]: none of the schemas read numeric
//! payloads.

use vstd::prelude::*;

verus! {

/// The shape of a JSON value.  An object is modelled as its entries in
/// some order with pairwise-distinct keys; [`obj_lookup`] reads it.
pub enum Json {
    Null,
    Bool(bool),
    Num,
    Str(Seq<char>),
    Arr(Seq<Json>),
    Obj(Seq<(Seq<char>, Json)>),
}

/// The value under key `k` of an object's entries, if any.
pub open spec fn obj_lookup(entries: Seq<(Seq<char>, Json)>, k: Seq<char>) -> Option<Json>
    decreases entries.len(),
{
    if entries.len() == 0 {
        None
    } else if entries[0].0 == k {
        Some(entries[0].1)
    } else {
        obj_lookup(entries.drop_first(), k)
    }
}

#[verifier::external_type_specification]
#[verifier::external_body]
pub struct ExValue(serde_json::Value);

/// What a `serde_json::Value` holds, as a [`Json`].
pub uninterp spec fn value_model(v: serde_json::Value) -> Json;

/// What parsing this text as JSON yields: `None` when it is not valid
/// JSON, otherwise the model of the parsed value.
pub uninterp spec fn json_of(s: Seq<char>) -> Option<Json>;

/// Relies on `serde_json::from_str::<Value>`: parses the text as one
/// JSON document; the result is a function of the text alone.
#[verifier::external_body]
pub fn parse_json(s: &str) -> (r: Option<serde_json::Value>)
    ensures
        r is Some <==> json_of(s@) is Some,
        r matches Some(v) ==> json_of(s@) matches Some(m) && value_model(v) == m,
{
    serde_json::from_str::<serde_json::Value>(s).ok()
}

/// Relies on `serde_json::Value::get` with a string index: a key lookup
/// on an object, `None` on every other kind of value.
#[verifier::external_body]
pub fn value_get<'a>(v: &'a serde_json::Value, key: &str) -> (r: Option<&'a serde_json::Value>)
    ensures
        match value_model(*v) {
            Json::Obj(entries) => {
                &&& (r is Some <==> obj_lookup(entries, key@) is Some)
                &&& (r matches Some(f) ==> obj_lookup(entries, key@) matches Some(m)
                    && value_model(*f) == m)
            },
            _ => r is None,
        },
{
    v.get(key)
}

/// Relies on `serde_json::Value::as_str`: the payload of a JSON string,
/// `None` on every other kind of value.
#[verifier::external_body]
pub fn value_as_str<'a>(v: &'a serde_json::Value) -> (r: Option<&'a str>)
    ensures
        (r is Some <==> value_model(*v) is Str),
        r matches Some(s) ==> value_model(*v) == Json::Str(s@),
{
    v.as_str()
}

/// Relies on `serde_json::Value::as_array`: the elements of a JSON
/// array, `None` on every other kind of value.
#[verifier::external_body]
pub fn value_as_array<'a>(v: &'a serde_json::Value) -> (r: Option<&'a Vec<serde_json::Value>>)
    ensures
        (r is Some <==> value_model(*v) is Arr),
        r matches Some(a) ==> value_model(*v) matches Json::Arr(elts) && a@.len() == elts.len()
            && forall|i: int| 0 <= i < elts.len() ==> value_model(#[trigger] a@[i]) == elts[i],
{
    v.as_array()
}

/// Relies on `serde_json::Value::is_null`.
#[verifier::external_body]
pub fn value_is_null(v: &serde_json::Value) -> (r: bool)
    ensures
        r == (value_model(*v) is Null),
{
    v.is_null()
}

} // verus!
