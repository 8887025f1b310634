//! CBOR encoding, from `ciborium`.

use crate::cbor::{Cbor, Item};
use ciborium::Value;
use vstd::prelude::*;

verus! {

/// The encoding of a document.
pub uninterp spec fn encoding_of(item: Item) -> Seq<u8>;

#[verifier::external_type_specification]
#[verifier::external_body]
pub struct ExValue(ciborium::Value);

/// An entry of a map as a pair of `ciborium::Value`s.
#[verifier::external_body]
fn to_pair(e: &(Cbor, Cbor)) -> (r: Option<(Value, Value)>) {
    to_value(&e.0).zip(to_value(&e.1))
}

/// The entries of a map as a `ciborium::Value`.
#[verifier::external_body]
fn to_map(v: &Vec<(Cbor, Cbor)>) -> (r: Option<Value>) {
    v.iter().map(to_pair).collect::<Option<_>>().map(Value::Map)
}

/// The elements of an array as a `ciborium::Value`.
#[verifier::external_body]
fn to_list(v: &Vec<Cbor>) -> (r: Option<Value>) {
    v.iter().map(to_value).collect::<Option<_>>().map(Value::Array)
}

/// The document as a `ciborium::Value`, part by part; none where it holds a
/// fraction.
#[verifier::external_body]
fn to_value(doc: &Cbor) -> (r: Option<Value>) {
    match doc {
        Cbor::Uint(n) => Value::serialized(n).ok(),
        Cbor::Nint(n) => Value::serialized(n).ok(),
        Cbor::Text(s) => Some(Value::Text(s.clone())),
        Cbor::Bytes(b) => Some(Value::Bytes(b.clone())),
        Cbor::Array(v) => to_list(v),
        Cbor::Entries(v) => to_map(v),
        Cbor::Bool(b) => Some(Value::Bool(*b)),
        Cbor::Tagged(t, inner) => to_value(inner).map(|x| Value::Tag(*t, Box::new(x))),
        Cbor::Null => Some(Value::Null),
        Cbor::Fraction => None,
    }
}

/// `ciborium::into_writer` into memory, which does not fail: the bytes depend on
/// what the document says alone. Fractions are left out, whose shortest form may
/// rest on the machine, and so is what nests deeper than a stack is sure to take.
#[verifier::external_body]
pub(crate) fn encode(doc: &Cbor) -> (r: Vec<u8>)
    requires
        crate::cbor::is_encodable(doc.item(), 64),
    ensures
        r@ == encoding_of(doc.item()),
{
    let mut out = Vec::new();
    ciborium::into_writer(&to_value(doc).unwrap(), &mut out).unwrap();
    out
}

/// The document that bytes encode, or the message that says why they encode none.
pub uninterp spec fn document_of(bytes: Seq<u8>) -> Result<Item, Seq<char>>;

/// A pair of `ciborium::Value`s as an entry of a map.
#[verifier::external_body]
fn from_pair(e: (Value, Value)) -> (r: (Cbor, Cbor)) {
    (from_value(e.0), from_value(e.1))
}

/// A `ciborium::Value` as a document, part by part; of a fraction it keeps only
/// that it is one. The last arm is `Null`, the one kind of value that no other
/// arm takes.
#[verifier::external_body]
fn from_value(v: Value) -> (r: Cbor) {
    match v {
        Value::Integer(n) => match u64::try_from(n) {
            Ok(u) => Cbor::Uint(u.into()),
            Err(_) => Cbor::Nint(n.into()),
        },
        Value::Text(s) => Cbor::Text(s),
        Value::Bytes(b) => Cbor::Bytes(b),
        Value::Array(v) => Cbor::Array(v.into_iter().map(from_value).collect()),
        Value::Map(m) => Cbor::Entries(m.into_iter().map(from_pair).collect()),
        Value::Bool(b) => Cbor::Bool(b),
        Value::Float(_) => Cbor::Fraction,
        Value::Tag(t, inner) => Cbor::Tagged(t, Box::new(from_value(*inner))),
        _ => Cbor::Null,
    }
}

/// Whether the first byte of an encoding says that a text or a map of a length
/// that is given follows.
pub open spec fn starts_as(bytes: Seq<u8>, item: Item) -> bool {
    &&& item is Text ==> bytes.len() > 0 && 0x60 <= bytes[0] <= 0x7b
    &&& item is Entries ==> bytes.len() > 0 && 0xa0 <= bytes[0] <= 0xbb
}

/// Whether the encoding of a plain document reads back as the document, and
/// starts as a document of its kind does.
pub open spec fn gives_back(bytes: Seq<u8>, r: Result<Cbor, String>) -> bool {
    forall|item: Item|
        crate::cbor::is_plain(item, 64) && bytes == #[trigger] encoding_of(item) ==> r is Ok
            && r->Ok_0.item() == item && starts_as(bytes, item)
}

/// `ciborium::from_reader` into a `Value`: the document, or the message of the
/// error, depends on the bytes alone, and what a plain document was encoded to
/// reads back as that document. What `ciborium::into_writer` writes of a text or
/// a map starts with the length.
#[verifier::external_body]
pub(crate) fn decode(bytes: &[u8]) -> (r: Result<Cbor, String>)
    ensures
        match r {
            Ok(doc) => document_of(bytes@) == Ok::<Item, Seq<char>>(doc.item()),
            Err(e) => document_of(bytes@) == Err::<Item, Seq<char>>(e@),
        },
        gives_back(bytes@, r),
{
    match ciborium::from_reader::<Value, _>(bytes) {
        Ok(v) => Ok(from_value(v)),
        Err(e) => Err(e.to_string()),
    }
}

} // verus!
