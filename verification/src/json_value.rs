//! JSON values of `serde_json`, built and written out through its own
//! functions. What is claimed of them is claimed of their compact text.

use vstd::prelude::*;
use crate::decimal::decimal;
use crate::json::{
    is_json_object_text, is_json_text, is_nonempty_object_text, is_plain_text,
    single_member_text, Json,
};

verus! {

/// `serde_json::Value`, carried through as it is.
#[verifier::external_type_specification]
#[verifier::external_body]
pub struct ExValue(serde_json::Value);

/// The compact text that `serde_json` writes for a value.
pub uninterp spec fn value_text(v: serde_json::Value) -> Seq<char>;

/// An integer in decimal notation, with a minus sign if it is negative.
pub open spec fn signed_decimal(i: int) -> Seq<char> {
    if i < 0 {
        seq!['-'] + decimal((-i) as nat)
    } else {
        decimal(i as nat)
    }
}

/// `Value::Null`, which is written `null`.
#[verifier::external_body]
pub(crate) fn value_null() -> (v: serde_json::Value)
    ensures
        value_text(v) == Json::Null.render(),
{
    serde_json::Value::Null
}

/// `Value::Bool`, which is written `true` or `false`.
#[verifier::external_body]
pub(crate) fn value_bool(b: bool) -> (v: serde_json::Value)
    ensures
        value_text(v) == Json::Boolean(b).render(),
{
    serde_json::Value::Bool(b)
}

/// `Value::from` for `i64`: a number, written in decimal notation.
#[verifier::external_body]
pub(crate) fn value_from_i64(i: i64) -> (v: serde_json::Value)
    ensures
        value_text(v) == signed_decimal(i as int),
{
    serde_json::Value::from(i)
}

/// `Number::from_f64` on a random number of the unit interval, as a value.
/// Where a number comes back, the value is written as a JSON number.
#[verifier::external_body]
pub(crate) fn gen_unit_interval_value(rng: &mut rand::rngs::ThreadRng) -> (r: Option<
    serde_json::Value,
>)
    ensures
        r matches Some(v) ==> is_json_text(value_text(v)),
{
    serde_json::Number::from_f64(rand::Rng::gen(rng)).map(serde_json::Value::Number)
}

/// `Value::String`: a string, written between quotes with what needs it
/// escaped.
#[verifier::external_body]
pub(crate) fn value_string(s: String) -> (v: serde_json::Value)
    ensures
        is_json_text(value_text(v)),
{
    serde_json::Value::String(s)
}

/// `Value::Array`: an array of the given values.
#[verifier::external_body]
pub(crate) fn value_array(items: Vec<serde_json::Value>) -> (v: serde_json::Value)
    ensures
        is_json_text(value_text(v)),
{
    serde_json::Value::Array(items)
}

/// `Value::Object` of `Map::new`: the object without members, written `{}`.
#[verifier::external_body]
pub(crate) fn empty_object() -> (v: serde_json::Value)
    ensures
        value_text(v) == Json::Object(Seq::empty()).render(),
{
    serde_json::Value::Object(serde_json::Map::new())
}

/// `Map::insert` on the members of an object: sets the member `key`. An
/// object is afterwards an object with at least one member; the object
/// without members holds just the new one, whose key is written as it is
/// where it needs no escape. Any other value is left as it is.
#[verifier::external_body]
pub(crate) fn object_insert(obj: &mut serde_json::Value, key: String, value: serde_json::Value)
    ensures
        is_json_object_text(value_text(*old(obj))) ==> is_nonempty_object_text(
            value_text(*final(obj)),
        ),
        value_text(*old(obj)) == Json::Object(Seq::empty()).render() && is_plain_text(key@)
            ==> value_text(*final(obj)) == single_member_text(key@, value_text(value)),
{
    if let serde_json::Value::Object(members) = obj {
        members.insert(key, value);
    }
}

/// `Value::clone`: a copy, which is written as the value is.
#[verifier::external_body]
pub(crate) fn clone_value(v: &serde_json::Value) -> (copy: serde_json::Value)
    ensures
        value_text(copy) == value_text(*v),
{
    v.clone()
}

/// `serde_json::to_string`: the compact text of the value, which is the
/// text of a JSON document, or nothing where serialization fails.
#[verifier::external_body]
pub(crate) fn to_json_text(v: &serde_json::Value) -> (r: Option<String>)
    ensures
        r matches Some(s) ==> s@ == value_text(*v) && is_json_text(s@),
{
    serde_json::to_string(v).ok()
}

} // verus!
