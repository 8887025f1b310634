//! TOML, from `toml`.

use crate::toml_doc::{Toml, TomlItem};
use toml::de::DeValue;
use toml::Value;
use vstd::prelude::*;

verus! {

/// The document that a text writes, or the message that says why it writes none.
pub uninterp spec fn toml_of(text: Seq<char>) -> Result<TomlItem, Seq<char>>;

/// The message that says why a text cannot be read to its end, if it cannot.
pub uninterp spec fn toml_fault_of(text: Seq<char>) -> Option<Seq<char>>;

/// A document as text.
pub uninterp spec fn toml_text_of(doc: TomlItem) -> Seq<char>;

#[verifier::external_type_specification]
#[verifier::external_body]
pub struct ExTomlValue(toml::Value);

#[verifier::external_type_specification]
#[verifier::external_body]
pub struct ExDeValue<'i>(toml::de::DeValue<'i>);

/// A parsed `toml::de::DeValue` as a document, part by part. A fraction and
/// a date are both `Other`.
#[verifier::external_body]
fn from_value(v: &DeValue<'_>) -> (r: Toml) {
    match v {
        DeValue::Integer(n) => i128::from_str_radix(n.as_str(), n.radix()).map_or(
            Toml::Wide,
            Toml::Integer,
        ),
        DeValue::String(s) => Toml::Text(s.to_string()),
        DeValue::Boolean(b) => Toml::Bool(*b),
        DeValue::Array(v) => Toml::Array(
            v.iter().map(|x| from_value(x.get_ref())).collect(),
        ),
        DeValue::Table(t) => Toml::Table(
            t.iter().map(|(k, x)| (k.get_ref().to_string(), from_value(x.get_ref()))).collect(),
        ),
        DeValue::Float(_) | DeValue::Datetime(_) => Toml::Other,
    }
}

/// `toml::from_str` into a `serde::de::IgnoredAny`, which reads a document and
/// keeps nothing of it: it fails where the text is no TOML document or holds a
/// number that has no value. The message depends on the text alone.
#[verifier::external_body]
pub(crate) fn fault(text: &str) -> (r: Option<String>)
    ensures
        match r {
            Some(e) => toml_fault_of(text@) == Some(e@),
            None => toml_fault_of(text@) is None,
        },
{
    toml::from_str::<serde::de::IgnoredAny>(text).err().map(|e| e.to_string())
}

/// `toml::de::DeTable::parse`: the document, a table in the order of the text, or
/// the message of the error, depends on the text alone.
#[verifier::external_body]
pub(crate) fn parse(text: &str) -> (r: Result<Toml, String>)
    ensures
        match r {
            Ok(doc) => toml_of(text@) == Ok::<TomlItem, Seq<char>>(doc.item()),
            Err(e) => toml_of(text@) == Err::<TomlItem, Seq<char>>(e@),
        },
{
    match toml::de::DeTable::parse(text) {
        Ok(t) => Ok(from_value(&DeValue::Table(t.into_inner()))),
        Err(e) => Err(e.to_string()),
    }
}

/// An entry of a table with its value as a `toml::Value`.
#[verifier::external_body]
fn to_entry(e: &(String, Toml)) -> (r: Option<(String, Value)>) {
    to_value(&e.1).map(|x| (e.0.clone(), x))
}

/// A document as a `toml::Value`, part by part; none where it holds a whole
/// number past 64 bits or an `Other`.
#[verifier::external_body]
fn to_value(doc: &Toml) -> (r: Option<Value>) {
    match doc {
        Toml::Integer(n) => i64::try_from(*n).ok().map(Value::Integer),
        Toml::Text(s) => Some(Value::String(s.clone())),
        Toml::Bool(b) => Some(Value::Boolean(*b)),
        Toml::Array(v) => v.iter().map(to_value).collect::<Option<_>>().map(Value::Array),
        Toml::Table(t) => t.iter().map(to_entry).collect::<Option<_>>().map(Value::Table),
        Toml::Wide | Toml::Other => None,
    }
}

/// `toml::to_string` of a table that is in the order in which it is written,
/// which does not fail: the text depends on what the document says alone, and
/// reads back as what it was.
#[verifier::external_body]
pub(crate) fn print(doc: &Toml) -> (r: String)
    requires
        doc.item() is Table,
        crate::toml_doc::is_laid_out(doc.item(), 8),
    ensures
        r@ == toml_text_of(doc.item()),
        toml_fault_of(r@) is None,
        (toml_of(r@) == Ok::<TomlItem, Seq<char>>(doc.item())),
{
    toml::to_string(&to_value(doc).unwrap()).unwrap()
}

} // verus!
