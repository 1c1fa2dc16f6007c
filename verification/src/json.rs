//! The boundary to `serde_json`.
//!
//! Everything here is believed, not proved: each wrapper makes one call into
//! `serde_json`, and its contract says what that call is taken to return.
//! The contracts are written for `serde_json` with its default features: an
//! object keeps its members in the order of their keys, and a number is an
//! unsigned integer, a negative integer or a float.

use serde_json::{Number, Value};
use vstd::prelude::*;

verus! {

/// `serde_json::Value`, a JSON value. Nothing inside it is visible here;
/// `json_of` names what it holds.
#[verifier::external_type_specification]
#[verifier::external_body]
pub struct ExValue(serde_json::Value);

/// `serde_json::Number`, a JSON number. It is carried, never looked into.
#[verifier::external_type_specification]
#[verifier::external_body]
pub struct ExNumber(serde_json::Number);

/// `serde_json::Error`, what a failed call into `serde_json` returns. It is
/// turned into a `WalError` or into `None` where the call is made.
#[verifier::external_type_specification]
#[verifier::external_body]
pub struct ExJsonError(serde_json::Error);

/// What a JSON value holds.
pub enum Json {
    Null,
    Bool(bool),
    Number(Number),
    /// A string, by its characters.
    Text(Seq<char>),
    /// An array, by what its elements hold.
    Array(Seq<Json>),
    /// An object, by what the member under each key holds.
    Object(Map<Seq<char>, Json>),
}

/// What `value` holds: the variant of `serde_json::Value` with its content.
pub uninterp spec fn json_of(value: Value) -> Json;

/// What `serde_json::from_slice` makes of `text` when it is read as one JSON
/// value; `None` where the call returns an error.
pub uninterp spec fn parsed(text: Seq<u8>) -> Option<Json>;

/// The compact JSON text that `serde_json::to_vec` writes for a value that
/// holds `json`. The text depends on nothing else: an object's members are
/// written in the order of their keys.
pub uninterp spec fn rendered(json: Json) -> Seq<u8>;

/// What `serde_json::Number::as_u64` returns for `number`.
pub uninterp spec fn number_u64(number: Number) -> Option<u64>;

/// The member of an object under `key`.
pub open spec fn member_of(json: Json, key: Seq<char>) -> Option<Json> {
    match json {
        Json::Object(members) => if members.dom().contains(key) {
            Some(members[key])
        } else {
            None
        },
        _ => None,
    }
}

/// Calls `serde_json::from_slice` for a `Value`. The result is taken to
/// depend on the bytes alone, and is named by `parsed`.
#[verifier::external_body]
pub(crate) fn parse(text: &[u8]) -> (r: Result<Value, serde_json::Error>)
    ensures
        match r {
            Ok(value) => parsed(text@) == Some(json_of(value)),
            Err(_) => parsed(text@) is None,
        },
{
    serde_json::from_slice(text)
}

/// Calls `serde_json::to_vec` on a `Value`. The call succeeds: a `Value`
/// has strings for keys and holds no number that is not finite, so the
/// serializer fails only where its writer fails, and the writer is a
/// `Vec<u8>`. The bytes are taken to depend on what the value holds alone,
/// and are named by `rendered`.
#[verifier::external_body]
pub(crate) fn render(value: &Value) -> (r: Result<Vec<u8>, serde_json::Error>)
    ensures
        r is Ok,
        r matches Ok(bytes) ==> bytes@ == rendered(json_of(*value)),
{
    serde_json::to_vec(value)
}

/// Calls `Value::get` with a string index: the member under `key` where the
/// value is an object that has one, else `None`.
#[verifier::external_body]
pub(crate) fn member<'a>(value: &'a Value, key: &str) -> (r: Option<&'a Value>)
    ensures
        match r {
            Some(found) => member_of(json_of(*value), key@) == Some(json_of(*found)),
            None => member_of(json_of(*value), key@) is None,
        },
{
    value.get(key)
}

/// Calls `Value::as_u64`: for a number, what `Number::as_u64` gives; for
/// anything else `None`.
#[verifier::external_body]
pub(crate) fn as_u64(value: &Value) -> (r: Option<u64>)
    ensures
        r == match json_of(*value) {
            Json::Number(number) => number_u64(number),
            _ => None,
        },
{
    value.as_u64()
}

/// Calls `Value::as_str`: the text of a string, `None` for anything else.
#[verifier::external_body]
pub(crate) fn as_str<'a>(value: &'a Value) -> (r: Option<&'a str>)
    ensures
        match r {
            Some(text) => json_of(*value) == Json::Text(text@),
            None => !(json_of(*value) is Text),
        },
{
    value.as_str()
}

/// Calls `Value::as_number` and copies the number out: `None` for anything
/// but a number.
#[verifier::external_body]
pub(crate) fn as_number(value: &Value) -> (r: Option<Number>)
    ensures
        match r {
            Some(number) => json_of(*value) == Json::Number(number),
            None => !(json_of(*value) is Number),
        },
{
    value.as_number().cloned()
}

/// Calls `Value::is_null`.
#[verifier::external_body]
pub(crate) fn is_null(value: &Value) -> (r: bool)
    ensures
        r == (json_of(*value) is Null),
{
    value.is_null()
}

/// `Value::clone`: the copy is the value.
pub assume_specification[ <serde_json::Value as Clone>::clone ](
    value: &serde_json::Value,
) -> (r: serde_json::Value)
    ensures
        r == *value,
;

/// `Number::clone`: the copy is the number.
pub assume_specification[ <serde_json::Number as Clone>::clone ](
    number: &serde_json::Number,
) -> (r: serde_json::Number)
    ensures
        r == *number,
;

/// Calls `Value::from` on a string slice, which gives `Value::String`.
#[verifier::external_body]
pub(crate) fn text_value(text: &str) -> (r: Value)
    ensures
        json_of(r) == Json::Text(text@),
{
    Value::from(text)
}

/// Calls `Value::from` on a number, which gives `Value::Number`.
#[verifier::external_body]
pub(crate) fn number_value(number: Number) -> (r: Value)
    ensures
        json_of(r) == Json::Number(number),
{
    Value::from(number)
}

} // verus!
