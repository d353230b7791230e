//! Decoding of CBOR payloads with the `ciborium` crate.
//!
//! The payload of memory chip content is a CBOR map from text keys to items. Decoding is done
//! by `ciborium`; what it gives is turned, item for item, into [`CborValue`]s.

use crate::errors::CBORParsingError;
use crate::strmap::StrMap;
use crate::value::{CborModel, CborValue};
use ciborium::de::Error::{Io, RecursionLimitExceeded, Semantic, Syntax};
use ciborium::{from_reader, Value};
use std::collections::BTreeMap;
use vstd::prelude::*;

verus! {

/// Declares `ciborium`'s dynamic CBOR item so that the decoding wrappers can take it.
#[verifier::external_type_specification]
#[verifier::external_body]
pub struct ExCiboriumValue(Value);

/// The keys and item models of the entries `e`.
pub open spec fn entries_model(e: Seq<(String, CborValue)>) -> Seq<(Seq<char>, CborModel)> {
    e.map_values(|p: (String, CborValue)| (p.0@, p.1.model()))
}

/// The model of a decoding outcome: the keys and item models of the entries, or the error.
pub open spec fn decoded_model(d: Result<StrMap<CborValue>, CBORParsingError>) -> Result<
    Seq<(Seq<char>, CborModel)>,
    CBORParsingError,
> {
    match d {
        Ok(m) => Ok(entries_model(m.entries@)),
        Err(e) => Err(e),
    }
}

/// What `ciborium` decodes the bytes `bytes` to, read as a map from text keys to CBOR items:
/// its entries in key order, each key with the model of its item, or the decoding error.
pub uninterp spec fn cbor_payload(bytes: Seq<u8>) -> Result<
    Seq<(Seq<char>, CborModel)>,
    CBORParsingError,
>;

/// Turns a `ciborium` item into a [`CborValue`], variant for variant; a variant that a later
/// version of `ciborium` might add becomes [`CborValue::Other`]. Used by [`decode_cbor`] alone,
/// whose contract covers it.
#[verifier::external_body]
fn item_of(v: Value) -> CborValue {
    match v {
        Value::Integer(i) => CborValue::Integer(i.into()),
        Value::Bytes(b) => CborValue::Bytes(b),
        Value::Float(f) => CborValue::Float(f.to_bits()),
        Value::Text(t) => CborValue::Text(t),
        Value::Bool(b) => CborValue::Bool(b),
        Value::Null => CborValue::Null,
        Value::Tag(t, x) => CborValue::Tag(t, Box::new(item_of(*x))),
        Value::Array(a) => CborValue::Array(a.into_iter().map(item_of).collect()),
        Value::Map(m) => {
            CborValue::Mapping(m.into_iter().map(|(k, x)| (item_of(k), item_of(x))).collect())
        },
        _ => CborValue::Other,
    }
}

/// `ciborium::from_reader` on `bytes`, into a `BTreeMap` from strings to `ciborium` items, whose
/// entries are then taken in key order; its errors are told apart variant for variant, the I/O
/// error itself being dropped.
///
/// The contract names the outcome [`cbor_payload`] of the bytes: the same bytes decode to the
/// same entries or the same error. What CBOR decoding gives is left unstated.
#[verifier::external_body]
pub(crate) fn decode_cbor(bytes: &[u8]) -> (res: Result<StrMap<CborValue>, CBORParsingError>)
    ensures
        decoded_model(res) == cbor_payload(bytes@),
{
    match from_reader::<BTreeMap<String, Value>, _>(bytes) {
        Ok(map) => Ok(StrMap { entries: map.into_iter().map(|(k, v)| (k, item_of(v))).collect() }),
        Err(Io(_)) => Err(CBORParsingError::Io),
        Err(Syntax(offset)) => Err(CBORParsingError::Syntax(offset)),
        Err(Semantic(offset, text)) => Err(CBORParsingError::Semantic(text, offset)),
        Err(RecursionLimitExceeded) => Err(CBORParsingError::RecursionLimitExceeded),
    }
}

} // verus!
