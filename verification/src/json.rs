//! Reading fields out of JSON texts.
use crate::report::{group_texts, parse_signed, signed_number};
use vstd::prelude::*;

verus! {

/// A JSON value, as far as the library reads it.
pub enum Json {
    Null,
    Bool(bool),
    /// A number, as it is printed.
    Number(String),
    Text(String),
    /// An array: its strings in their places, and the whole as it is printed.
    Array(Vec<Option<String>>, String),
    /// An object, as it is printed.
    Object(String),
}

/// A JSON value in plain values.
pub ghost enum JsonView {
    Null,
    Bool(bool),
    Number(Seq<char>),
    Text(Seq<char>),
    Array(Seq<Option<Seq<char>>>, Seq<char>),
    Object(Seq<char>),
}

impl Json {
    pub open spec fn view(self) -> JsonView {
        match self {
            Json::Null => JsonView::Null,
            Json::Bool(b) => JsonView::Bool(b),
            Json::Number(t) => JsonView::Number(t@),
            Json::Text(t) => JsonView::Text(t@),
            Json::Array(items, t) => JsonView::Array(group_texts(items@), t@),
            Json::Object(t) => JsonView::Object(t@),
        }
    }
}

/// The value of an option, in plain values.
pub open spec fn maybe_json(v: Option<Json>) -> Option<JsonView> {
    match v {
        Some(x) => Some(x@),
        None => None,
    }
}

/// `serde_json::Value`, a parsed JSON value.
#[verifier::external_type_specification]
#[verifier::external_body]
pub struct ExValue(serde_json::Value);

/// The fields of a parsed object, with numbers, arrays and objects as serde_json
/// prints them. A value that is no object has none.
pub uninterp spec fn value_fields(value: serde_json::Value) -> Map<Seq<char>, JsonView>;

/// The fields of the value that `serde_json` reads a text as; nothing where the text
/// is no JSON.
pub uninterp spec fn json_fields(text: Seq<char>) -> Option<Map<Seq<char>, JsonView>>;

/// The value of a field, where there is one.
pub open spec fn field_among(fields: Map<Seq<char>, JsonView>, field: Seq<char>) -> Option<
    JsonView,
> {
    if fields.dom().contains(field) {
        Some(fields[field])
    } else {
        None
    }
}

/// `serde_json::from_str` into a `serde_json::Value`. Which texts parse, and to what,
/// is serde_json's to say: the fields are named, not spelled out.
#[verifier::external_body]
fn parse_json(text: &str) -> (r: Option<serde_json::Value>)
    ensures
        match r {
            Some(value) => json_fields(text@) == Some(value_fields(value)),
            None => json_fields(text@) is None,
        },
{
    serde_json::from_str(text).ok()
}

/// `serde_json::Value::get` with a name: the value under a field of an object, where
/// there is one.
#[verifier::external_body]
pub(crate) fn value_field(value: &serde_json::Value, field: &str) -> (r: Option<Json>)
    ensures
        maybe_json(r) == field_among(value_fields(*value), field@),
{
    value.get(field).map(|found| match found {
        serde_json::Value::Null => Json::Null,
        serde_json::Value::Bool(b) => Json::Bool(*b),
        serde_json::Value::Number(n) => Json::Number(n.to_string()),
        serde_json::Value::String(s) => Json::Text(s.to_owned()),
        serde_json::Value::Array(items) => Json::Array(
            items.iter().map(|v| v.as_str().map(|s| s.to_owned())).collect(),
            found.to_string(),
        ),
        serde_json::Value::Object(_) => Json::Object(found.to_string()),
    })
}

/// What a look for a field in a text finds: nothing where the text is no JSON; else
/// the value under the field of its top-level object, where there is one.
pub open spec fn json_field(text: Seq<char>, field: Seq<char>) -> Option<Option<JsonView>> {
    match json_fields(text) {
        Some(fields) => Some(field_among(fields, field)),
        None => None,
    }
}

/// A field as it was looked for, in plain values.
pub open spec fn looked_up(v: Option<Option<Json>>) -> Option<Option<JsonView>> {
    match v {
        Some(x) => Some(maybe_json(x)),
        None => None,
    }
}

/// Looks for a field in a JSON text.
pub fn field_in(text: &str, field: &str) -> (r: Option<Option<Json>>)
    ensures
        looked_up(r) == json_field(text@, field@),
{
    match parse_json(text) {
        Some(value) => Some(value_field(&value, field)),
        None => None,
    }
}

/// The value under a field of a JSON text, where there is one.
pub open spec fn field_of(text: Seq<char>, field: Seq<char>) -> Option<JsonView> {
    match json_field(text, field) {
        Some(v) => v,
        None => None,
    }
}

/// The value under a field of a JSON text, where there is one.
pub fn read_field(text: &str, field: &str) -> (r: Option<Json>)
    ensures
        maybe_json(r) == field_of(text@, field@),
{
    match field_in(text, field) {
        Some(v) => v,
        None => None,
    }
}

/// The string under a field of a JSON text.
pub open spec fn string_field(text: Seq<char>, field: Seq<char>) -> Option<Seq<char>> {
    match field_of(text, field) {
        Some(JsonView::Text(t)) => Some(t),
        _ => None,
    }
}

/// The string under a field of a JSON text.
pub fn read_string(text: &str, field: &str) -> (r: Option<String>)
    ensures
        match r {
            Some(t) => string_field(text@, field@) == Some(t@),
            None => string_field(text@, field@) is None,
        },
{
    match read_field(text, field) {
        Some(Json::Text(t)) => Some(t),
        _ => None,
    }
}

/// A value as a whole number of 64 bits: a number that is printed as one.
pub open spec fn integer_of(v: Option<JsonView>) -> Option<int> {
    match v {
        Some(JsonView::Number(t)) => signed_number(t),
        _ => None,
    }
}

/// A value as a whole number of 64 bits.
pub fn to_integer(v: &Option<Json>) -> (r: Option<i64>)
    ensures
        match r {
            Some(n) => integer_of(maybe_json(*v)) == Some(n as int),
            None => integer_of(maybe_json(*v)) is None,
        },
{
    match v {
        Some(Json::Number(t)) => parse_signed(t.as_str()),
        _ => None,
    }
}

} // verus!
