//! Pickled archive indexes, through `serde_pickle`: reading one into the
//! library's model of pickled values, and writing the indexes of patch
//! archives.

use std::collections::BTreeMap;
use vstd::prelude::*;

use crate::rpa::archive::{PickleKey, PickleValue};
use crate::rpa::repair::repaired_view;

verus! {

/// `serde_pickle::Value`, carried from the reader to the conversion.
#[verifier::external_type_specification]
#[verifier::external_body]
pub struct ExPickleValue(serde_pickle::Value);

/// `serde_pickle::HashableValue`, a dictionary key, likewise.
#[verifier::external_type_specification]
#[verifier::external_body]
pub struct ExHashableValue(serde_pickle::HashableValue);

/// A `serde_pickle` value in the library's model: integers, byte strings,
/// strings, lists, tuples and dictionaries become their counterparts
/// (dictionary entries in the map's order), every other kind `Other`.
#[verifier::external_body]
fn model_value(v: serde_pickle::Value) -> PickleValue {
    match v {
        serde_pickle::Value::I64(x) => PickleValue::I64(x),
        serde_pickle::Value::Bytes(b) => PickleValue::Bytes(b),
        serde_pickle::Value::String(s) => PickleValue::Str(s),
        serde_pickle::Value::List(l) => PickleValue::List(l.into_iter().map(model_value).collect()),
        serde_pickle::Value::Tuple(t) => PickleValue::Tuple(t.into_iter().map(model_value).collect()),
        serde_pickle::Value::Dict(d) => PickleValue::Dict(
            d.into_iter().map(|(k, v)| (model_key(k), model_value(v))).collect(),
        ),
        _ => PickleValue::Other,
    }
}

/// A `serde_pickle` dictionary key in the library's model: strings and
/// byte strings become their counterparts, every other kind `Other`.
#[verifier::external_body]
fn model_key(k: serde_pickle::HashableValue) -> PickleKey {
    match k {
        serde_pickle::HashableValue::String(s) => PickleKey::Str(s),
        serde_pickle::HashableValue::Bytes(b) => PickleKey::Bytes(b),
        _ => PickleKey::Other,
    }
}

/// What `serde_pickle::value_from_slice` reads from bytes with the default
/// options, in the library's model; `None` where it reports an error.
pub uninterp spec fn unpickle(data: Seq<u8>) -> Option<PickleValue>;

/// `serde_pickle::value_from_slice` with `DeOptions::new()`, the value
/// converted to the library's model. Its result is the name `unpickle` of
/// the bytes; on failure the error's message, whose text is not stated.
#[verifier::external_body]
pub(crate) fn parse_pickle(data: &[u8]) -> (r: Result<PickleValue, String>)
    ensures
        match r {
            Ok(v) => unpickle(data@) == Some(v),
            Err(_) => unpickle(data@) is None,
        },
{
    match serde_pickle::value_from_slice(data, serde_pickle::DeOptions::new()) {
        Ok(v) => Ok(model_value(v)),
        Err(e) => Err(e.to_string()),
    }
}

/// Index entries as values: name, offset and length.
pub open spec fn entry_triples(e: Seq<(String, u64, u64)>) -> Seq<(Seq<char>, u64, u64)> {
    e.map_values(|x: (String, u64, u64)| (x.0@, x.1, x.2))
}

/// The pickle that `serde_pickle::to_vec` writes, with the default options,
/// for a `BTreeMap` from each name to a list of one tuple of its offset, its
/// length and an empty list of bytes; `None` where it reports an error.
pub uninterp spec fn pickled_entries(e: Seq<(Seq<char>, u64, u64)>) -> Option<Seq<u8>>;

/// `serde_pickle::to_vec` with `SerOptions::default()` of the entries as a
/// `BTreeMap<String, Vec<(u64, u64, Vec<u8>)>>`. Its result is the name
/// `pickled_entries`; on failure the error's message, whose text is not
/// stated.
#[verifier::external_body]
pub(crate) fn pickle_entries(e: &Vec<(String, u64, u64)>) -> (r: Result<Vec<u8>, String>)
    ensures
        match r {
            Ok(b) => pickled_entries(entry_triples(e@)) == Some(b@),
            Err(_) => pickled_entries(entry_triples(e@)) is None,
        },
{
    let map: BTreeMap<String, Vec<(u64, u64, Vec<u8>)>> =
        e.iter().map(|(n, o, l)| (n.clone(), vec![(*o, *l, Vec::new())])).collect();
    serde_pickle::to_vec(&map, serde_pickle::SerOptions::default()).map_err(|e| e.to_string())
}

/// The pickle that `serde_pickle::to_vec` writes, with the default options,
/// for a `BTreeMap` from each name to its list of (offset, length, empty
/// byte string) tuples; `None` where it reports an error.
pub uninterp spec fn pickled_repaired(e: Seq<(Seq<char>, Seq<(u64, u64)>)>) -> Option<Seq<u8>>;

/// `serde_pickle::to_vec` with `SerOptions::default()` of the entries as a
/// `BTreeMap<String, Vec<(u64, u64, serde_bytes::ByteBuf)>>`, each prefix an
/// empty byte string. Its result is the name `pickled_repaired`; on failure
/// the error's message, whose text is not stated.
#[verifier::external_body]
pub(crate) fn pickle_repaired(e: &Vec<(String, Vec<(u64, u64)>)>) -> (r: Result<Vec<u8>, String>)
    ensures
        match r {
            Ok(b) => pickled_repaired(repaired_view(e@)) == Some(b@),
            Err(_) => pickled_repaired(repaired_view(e@)) is None,
        },
{
    let map: BTreeMap<String, Vec<(u64, u64, serde_bytes::ByteBuf)>> = e.iter().map(
        |(n, p)| (n.clone(), p.iter().map(|(o, l)| (*o, *l, serde_bytes::ByteBuf::new())).collect()),
    ).collect();
    serde_pickle::to_vec(&map, serde_pickle::SerOptions::default()).map_err(|e| e.to_string())
}

} // verus!
