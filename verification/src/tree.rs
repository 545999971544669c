//! The model of a parsed JSON document, and the trusted boundary to the
//! `json` crate that produces one.
//!
//! A parsed value is opaque; the contracts of the accessors below describe
//! it through `jmodel`, its shape: null, boolean, scalar (the sign,
//! mantissa and decimal exponent the parser stores), text, array, or object
//! (key/value pairs in storage order, keys unique).

use vstd::prelude::*;

verus! {

/// The shape of a parsed JSON value. Text and keys are byte sequences.
pub enum JTree {
    Null,
    Bool(bool),
    /// A scalar: sign, mantissa, decimal exponent.
    Num(bool, u64, i16),
    Text(Seq<u8>),
    Arr(Seq<JTree>),
    Obj(Seq<(Seq<u8>, JTree)>),
}

#[verifier::external_type_specification]
#[verifier::external_body]
pub struct ExJsonValue(json::JsonValue);

/// The shape of a parsed value.
pub uninterp spec fn jmodel(v: json::JsonValue) -> JTree;

/// What parsing a document yields: a well-formed document's shape, or
/// nothing. A parse is a function of the text alone.
pub uninterp spec fn tree_of(s: Seq<char>) -> Option<JTree>;

/// Relies on `json::parse`: it is deterministic in the document text, and
/// the value it returns is the parsed document.
#[verifier::external_body]
pub(crate) fn parse_document(s: &str) -> (r: Result<json::JsonValue, String>)
    ensures
        r is Ok <==> tree_of(s@) is Some,
        r matches Ok(v) ==> Some(jmodel(v)) == tree_of(s@),
{
    json::parse(s).map_err(|e| format!("{:?}", e))
}

/// Relies on `JsonValue::is_array`: true exactly of the `Array` variant.
#[verifier::external_body]
pub(crate) fn is_array(v: &json::JsonValue) -> (r: bool)
    ensures
        r <==> jmodel(*v) is Arr,
{
    v.is_array()
}

/// Relies on `JsonValue::is_object`: true exactly of the `Object` variant.
#[verifier::external_body]
pub(crate) fn is_object(v: &json::JsonValue) -> (r: bool)
    ensures
        r <==> jmodel(*v) is Obj,
{
    v.is_object()
}

/// Relies on `JsonValue::is_null`: true exactly of the `Null` variant.
#[verifier::external_body]
pub(crate) fn is_null(v: &json::JsonValue) -> (r: bool)
    ensures
        r <==> jmodel(*v) is Null,
{
    v.is_null()
}

/// Relies on `JsonValue::members`: on an array it yields the elements in
/// order.
#[verifier::external_body]
pub(crate) fn array_elements<'a>(v: &'a json::JsonValue) -> (r: Vec<&'a json::JsonValue>)
    requires
        jmodel(*v) is Arr,
    ensures
        r@.len() == jmodel(*v)->Arr_0.len(),
        forall|i: int|
            0 <= i < r@.len() ==> jmodel(*#[trigger] r@[i]) == jmodel(*v)->Arr_0[i],
{
    v.members().collect()
}

/// Relies on `JsonValue::entries`: on an object it yields the key/value
/// pairs in storage order; stored keys are unique.
#[verifier::external_body]
pub(crate) fn object_entries<'a>(v: &'a json::JsonValue) -> (r: Vec<
    (Vec<u8>, &'a json::JsonValue),
>)
    requires
        jmodel(*v) is Obj,
    ensures
        r@.len() == jmodel(*v)->Obj_0.len(),
        forall|i: int|
            0 <= i < r@.len() ==> (#[trigger] r@[i]).0@ == jmodel(*v)->Obj_0[i].0 && jmodel(
                *r@[i].1,
            ) == jmodel(*v)->Obj_0[i].1,
{
    v.entries().map(|(k, x)| (k.as_bytes().to_vec(), x)).collect()
}

/// Relies on `JsonValue::as_str`: the text of the `Short` and `String`
/// variants, nothing else.
#[verifier::external_body]
pub(crate) fn as_text(v: &json::JsonValue) -> (r: Option<Vec<u8>>)
    ensures
        r is Some <==> jmodel(*v) is Text,
        r matches Some(t) ==> jmodel(*v) == JTree::Text(t@),
{
    v.as_str().map(|t| t.as_bytes().to_vec())
}

/// Relies on `Number::as_parts`: the stored sign, mantissa and exponent of
/// the `Number` variant.
#[verifier::external_body]
pub(crate) fn number_parts(v: &json::JsonValue) -> (r: Option<(bool, u64, i16)>)
    ensures
        r is Some <==> jmodel(*v) is Num,
        r matches Some(p) ==> jmodel(*v) == JTree::Num(p.0, p.1, p.2),
{
    match v {
        json::JsonValue::Number(n) => Some(n.as_parts()),
        _ => None,
    }
}

} // verus!
