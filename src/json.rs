use vstd::prelude::*;
use crate::error::ExportError;
use crate::text::text_eq;

verus! {

/// A JSON document as the decoders read it. A number keeps what it reads as
/// an unsigned integer: `Some` for a non-negative integer that fits in `u64`,
/// `None` for any other number.
pub enum Json {
    Null,
    Bool(bool),
    Number(Option<u64>),
    Str(String),
    Array(Vec<Json>),
    Object(Vec<(String, Json)>),
}

/// serde_json's document type, carried only into the conversion below.
#[verifier::external_type_specification]
#[verifier::external_body]
pub struct ExValue(serde_json::Value);

/// The document that a text holds, or `None` where the text is not JSON.
pub uninterp spec fn parsed_json(text: Seq<char>) -> Option<Json>;

/// Relies on serde_json::from_str: it decodes the text into a document or
/// reports that the text is not JSON.
#[verifier::external_body]
pub(crate) fn parse_json(text: &str) -> (r: Option<Json>)
    ensures
        r == parsed_json(text@),
{
    match serde_json::from_str::<serde_json::Value>(text) {
        Ok(v) => Some(json_from_value(v)),
        Err(_) => None,
    }
}

/// Relies on serde_json::Value's variants: each becomes the variant of the
/// same name, and a number what serde_json's `as_u64` gives of it.
#[verifier::external_body]
fn json_from_value(v: serde_json::Value) -> Json {
    match v {
        serde_json::Value::Null => Json::Null,
        serde_json::Value::Bool(b) => Json::Bool(b),
        serde_json::Value::Number(n) => Json::Number(n.as_u64()),
        serde_json::Value::String(s) => Json::Str(s),
        serde_json::Value::Array(a) => Json::Array(a.into_iter().map(json_from_value).collect()),
        serde_json::Value::Object(m) => Json::Object(
            m.into_iter().map(|(k, x)| (k, json_from_value(x))).collect(),
        ),
    }
}

/// Reads a response body as a JSON document; a body that is not JSON fails
/// with `Decode`.
pub fn decode_document(text: &str) -> (r: Result<Json, ExportError>)
    ensures
        match parsed_json(text@) {
            Some(j) => r == Ok::<Json, ExportError>(j),
            None => r == Err::<Json, ExportError>(ExportError::Decode),
        },
{
    match parse_json(text) {
        Some(j) => Ok(j),
        None => Err(ExportError::Decode),
    }
}

/// The value of the last member named `key` among `members`.
pub open spec fn member(members: Seq<(String, Json)>, key: Seq<char>) -> Option<Json>
    decreases members.len(),
{
    if members.len() == 0 {
        None
    } else if members.last().0@ == key {
        Some(members.last().1)
    } else {
        member(members.drop_last(), key)
    }
}

/// The value under `key` of an object; `None` for a missing key or a value
/// that is no object.
pub open spec fn field(j: Json, key: Seq<char>) -> Option<Json> {
    match j {
        Json::Object(members) => member(members@, key),
        _ => None,
    }
}

/// The text under `key`, where the value there is a string.
pub open spec fn str_field(j: Json, key: Seq<char>) -> Option<Seq<char>> {
    match field(j, key) {
        Some(Json::Str(s)) => Some(s@),
        _ => None,
    }
}

/// The elements under `key`, where the value there is an array.
pub open spec fn array_field(j: Json, key: Seq<char>) -> Option<Seq<Json>> {
    match field(j, key) {
        Some(Json::Array(a)) => Some(a@),
        _ => None,
    }
}

/// The unsigned integer under `key`, where the value there is one.
pub open spec fn u64_field(j: Json, key: Seq<char>) -> Option<u64> {
    match field(j, key) {
        Some(Json::Number(Some(n))) => Some(n),
        _ => None,
    }
}

/// Looks up the value under `key`.
pub fn get_field<'a>(j: &'a Json, key: &str) -> (r: Option<&'a Json>)
    ensures
        match field(*j, key@) {
            Some(v) => r is Some && *r->Some_0 == v,
            None => r is None,
        },
{
    match j {
        Json::Object(members) => {
            let mut found: Option<&Json> = None;
            let mut i: usize = 0;
            while i < members.len()
                invariant
                    0 <= i <= members@.len(),
                    match member(members@.take(i as int), key@) {
                        Some(v) => found is Some && *found->Some_0 == v,
                        None => found is None,
                    },
                decreases members@.len() - i,
            {
                assert(members@.take(i + 1).drop_last() == members@.take(i as int));
                if text_eq(members[i].0.as_str(), key) {
                    found = Some(&members[i].1);
                }
                i = i + 1;
            }
            assert(members@.take(i as int) == members@);
            found
        },
        _ => None,
    }
}

/// Reads the text under `key`.
pub fn get_str<'a>(j: &'a Json, key: &str) -> (r: Option<&'a String>)
    ensures
        match str_field(*j, key@) {
            Some(s) => r is Some && r->Some_0@ == s,
            None => r is None,
        },
{
    match get_field(j, key) {
        Some(Json::Str(s)) => Some(s),
        _ => None,
    }
}

/// Reads the elements under `key`.
pub fn get_array<'a>(j: &'a Json, key: &str) -> (r: Option<&'a Vec<Json>>)
    ensures
        match array_field(*j, key@) {
            Some(a) => r is Some && r->Some_0@ == a,
            None => r is None,
        },
{
    match get_field(j, key) {
        Some(Json::Array(a)) => Some(a),
        _ => None,
    }
}

/// Reads the unsigned integer under `key`.
pub fn get_u64(j: &Json, key: &str) -> (r: Option<u64>)
    ensures
        r == u64_field(*j, key@),
{
    match get_field(j, key) {
        Some(Json::Number(Some(n))) => Some(*n),
        _ => None,
    }
}

} // verus!
