//! The serialized form of a namespace's mapping: a JSON object whose members
//! are the keys with their secrets as strings. Reading and writing JSON is
//! `serde_json`'s work; this module gives its results a name and nothing more.
use vstd::prelude::*;
use crate::entries::distinct_keys;

verus! {

/// `serde_json::Error`, which is carried from the call to where it is
/// dropped and never looked into.
#[verifier::external_type_specification]
#[verifier::external_body]
pub struct ExJsonError(serde_json::Error);

/// What `serde_json::from_slice` reads from the bytes as a map from strings
/// to strings, its members in ascending order of their keys; `None` where it
/// reports an error.
pub uninterp spec fn json_object_entries(bytes: Seq<u8>) -> Option<Seq<(Seq<char>, Seq<char>)>>;

/// What `serde_json::to_vec` writes for a map from strings to strings that
/// holds the given pairs; `None` where it reports an error.
pub uninterp spec fn json_object_bytes(entries: Seq<(Seq<char>, Seq<char>)>) -> Option<Seq<u8>>;

/// Calls `serde_json::from_slice` to read a `BTreeMap<String, String>` and
/// hands out its pairs in the map's order. Nothing is claimed of the outcome
/// but that it is the one named by `json_object_entries` for these bytes.
#[verifier::external_body]
pub(crate) fn parse_object(bytes: &[u8]) -> (r: Result<Vec<(String, String)>, serde_json::Error>)
    ensures
        match r {
            Ok(pairs) => json_object_entries(bytes@) == Some(pairs.deep_view()),
            Err(_) => json_object_entries(bytes@) is None,
        },
{
    let map = serde_json::from_slice::<std::collections::BTreeMap<String, String>>(bytes)?;
    Ok(map.into_iter().collect())
}

/// Calls `serde_json::to_vec` on a `BTreeMap` of the given pairs, whose keys
/// must differ from one another. Nothing is claimed of the outcome but that
/// it is the one named by `json_object_bytes` for these pairs.
#[verifier::external_body]
pub(crate) fn write_object(pairs: &Vec<(String, String)>) -> (r: Result<Vec<u8>, serde_json::Error>)
    requires
        distinct_keys(pairs.deep_view()),
    ensures
        match r {
            Ok(bytes) => json_object_bytes(pairs.deep_view()) == Some(bytes@),
            Err(_) => json_object_bytes(pairs.deep_view()) is None,
        },
{
    let map: std::collections::BTreeMap<&str, &str> =
        pairs.iter().map(|p| (p.0.as_str(), p.1.as_str())).collect();
    serde_json::to_vec(&map)
}

} // verus!
