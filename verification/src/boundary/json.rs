//! JSON, from `serde_json`.

use crate::json::{Json, JsonItem};
use ciborium::value::Value as Whole;
use serde_json::Value;
use vstd::prelude::*;

verus! {

/// The document that bytes write, or the message that says why they write none.
pub uninterp spec fn json_of(bytes: Seq<u8>) -> Result<JsonItem, Seq<char>>;

/// The document that bytes write, each member of an object kept where it stands,
/// or the message that says why they write none.
pub uninterp spec fn members_of(bytes: Seq<u8>) -> Result<JsonItem, Seq<char>>;

/// A document in compact form.
pub uninterp spec fn json_text_of(doc: JsonItem) -> Seq<char>;

#[verifier::external_type_specification]
#[verifier::external_body]
pub struct ExJsonValue(serde_json::Value);

/// A `serde_json::Value` as a document, part by part.
#[verifier::external_body]
fn from_value(v: &Value) -> (r: Json) {
    match v {
        Value::Null => Json::Null,
        Value::Bool(b) => Json::Bool(*b),
        Value::Number(n) => match (n.as_u64(), n.as_i64()) {
            (Some(u), _) => Json::Uint(u),
            (None, Some(i)) => Json::Nint(i),
            (None, None) => Json::Real(n.to_string()),
        },
        Value::String(s) => Json::Text(s.clone()),
        Value::Array(v) => Json::Array(v.iter().map(from_value).collect()),
        Value::Object(m) => Json::Object(
            m.iter().map(|(k, x)| (k.clone(), from_value(x))).collect(),
        ),
    }
}

/// `serde_json::from_slice` into a `serde_json::Value`, which keeps of the members
/// with one name the value of the last: the document, or the message of the
/// error, depends on the bytes alone.
#[verifier::external_body]
pub(crate) fn parse(bytes: &[u8]) -> (r: Result<Json, String>)
    ensures
        match r {
            Ok(doc) => json_of(bytes@) == Ok::<JsonItem, Seq<char>>(doc.item()),
            Err(e) => json_of(bytes@) == Err::<JsonItem, Seq<char>>(e@),
        },
{
    match serde_json::from_slice::<Value>(bytes) {
        Ok(v) => Ok(from_value(&v)),
        Err(e) => Err(e.to_string()),
    }
}

/// A member of an object that was read into a `ciborium::Value`; the names of a
/// JSON object are strings.
#[verifier::external_body]
fn from_member(e: &(Whole, Whole)) -> (r: (String, Json)) {
    (e.0.as_text().unwrap_or_default().to_owned(), from_whole(&e.1))
}

/// The members of an object that was read into a `ciborium::Value`.
#[verifier::external_body]
fn from_members(m: &Vec<(Whole, Whole)>) -> (r: Json) {
    Json::Object(m.iter().map(from_member).collect())
}

/// The elements of an array that was read into a `ciborium::Value`.
#[verifier::external_body]
fn from_list(v: &Vec<Whole>) -> (r: Json) {
    Json::Array(v.iter().map(from_whole).collect())
}

/// A `ciborium::Value` that was read from JSON as a document, part by part; JSON
/// has neither bytes nor tags.
#[verifier::external_body]
fn from_whole(v: &Whole) -> (r: Json) {
    match v {
        Whole::Bool(b) => Json::Bool(*b),
        Whole::Integer(n) => match u64::try_from(*n) {
            Ok(u) => Json::Uint(u),
            Err(_) => Json::Nint(i64::try_from(*n).unwrap_or_default()),
        },
        Whole::Float(x) => Json::Real(x.to_string()),
        Whole::Text(s) => Json::Text(s.clone()),
        Whole::Array(v) => from_list(v),
        Whole::Map(m) => from_members(m),
        _ => Json::Null,
    }
}

/// `serde_json::from_slice` into a `ciborium::Value`, which keeps every member of
/// an object, also one whose name came before: the document, or the message of
/// the error, depends on the bytes alone.
#[verifier::external_body]
pub(crate) fn parse_members(bytes: &[u8]) -> (r: Result<Json, String>)
    ensures
        match r {
            Ok(doc) => members_of(bytes@) == Ok::<JsonItem, Seq<char>>(doc.item()),
            Err(e) => members_of(bytes@) == Err::<JsonItem, Seq<char>>(e@),
        },
{
    match serde_json::from_slice::<Whole>(bytes) {
        Ok(v) => Ok(from_whole(&v)),
        Err(e) => Err(e.to_string()),
    }
}

/// A member of an object with its value as a `serde_json::Value`.
#[verifier::external_body]
fn to_member(e: &(String, Json)) -> (r: Option<(String, Value)>) {
    to_value(&e.1).map(|x| (e.0.clone(), x))
}

/// A document as a `serde_json::Value`, part by part; none where a `Real` is no
/// number.
#[verifier::external_body]
fn to_value(doc: &Json) -> (r: Option<Value>) {
    match doc {
        Json::Null => Some(Value::Null),
        Json::Bool(b) => Some(Value::Bool(*b)),
        Json::Uint(n) => Some(Value::from(*n)),
        Json::Nint(n) => Some(Value::from(*n)),
        Json::Real(s) => s.parse().ok().map(Value::Number),
        Json::Text(s) => Some(Value::String(s.clone())),
        Json::Array(v) => v.iter().map(to_value).collect::<Option<_>>().map(Value::Array),
        Json::Object(m) => m.iter().map(to_member).collect::<Option<_>>().map(Value::Object),
    }
}

/// `serde_json::Value::to_string` of an object of strings, whole numbers and
/// arrays of whole numbers: the text depends on what the document says alone, is
/// on one line between braces, and reads back as what it was.
#[verifier::external_body]
pub(crate) fn print(doc: &Json) -> (r: String)
    requires
        crate::json::is_flat(doc.item()),
    ensures
        r@ == json_text_of(doc.item()),
        r@.len() >= 2,
        r@[0] == '{',
        r@.last() == '}',
        !r@.contains('\n'),
        (members_of(vstd::utf8::encode_utf8(r@)) == Ok::<JsonItem, Seq<char>>(doc.item())),
{
    to_value(doc).unwrap().to_string()
}

} // verus!
