//! Lists of keys in JSON.

use vstd::prelude::*;
use crate::crud_model::crud_operation::CRUDOperation;
use crate::record_model::Key;
use crate::utils::csv;
use crate::utils::text;
use crate::workload::paper;
use crate::workload::paper::inserts_of;

verus! {

/// `serde_json::Error`, which says what is wrong with a text.
#[verifier::external_type_specification]
#[verifier::external_body]
pub struct ExJsonError(serde_json::Error);

/// The list of keys that a JSON text stands for, if it stands for one.
pub uninterp spec fn json_keys(bytes: Seq<u8>) -> Option<Seq<u64>>;

/// The digits of some numbers.
pub open spec fn decimals(keys: Seq<u64>) -> Seq<Seq<char>> {
    keys.map_values(|key: u64| text::decimal(key as nat))
}

/// The JSON text of a list of keys: their digits with commas between them, in brackets.
pub open spec fn list_text(keys: Seq<u64>) -> Seq<char> {
    seq!['['] + csv::joined(decimals(keys), seq![',']) + seq![']']
}

/// A text of ASCII characters as bytes.
pub open spec fn ascii(s: Seq<char>) -> Seq<u8> {
    s.map_values(|c: char| c as u8)
}

/// `serde_json::from_slice`: the list of numbers that the text stands for, and an error if it
/// stands for none.
#[verifier::external_body]
fn decode(bytes: &[u8]) -> (keys: Result<Vec<Key>, serde_json::Error>)
    ensures
        match keys {
            Ok(list) => json_keys(bytes@) == Some(list@),
            Err(_) => json_keys(bytes@) is None,
        },
{
    serde_json::from_slice(bytes)
}

/// `serde_json::to_vec`: a list of numbers can always be written, as their digits with commas
/// between them in brackets, and what was written stands for that list.
#[verifier::external_body]
fn encode(keys: &[Key]) -> (bytes: Result<Vec<u8>, serde_json::Error>)
    ensures
        bytes is Ok,
        bytes->Ok_0@ == ascii(list_text(keys@)),
        json_keys(bytes->Ok_0@) == Some(keys@),
{
    serde_json::to_vec(keys)
}

/// A text is no list of keys.
#[derive(Clone, Copy, Debug, PartialEq, Eq, Structural)]
pub struct JsonFailure;

/// Reads a list of keys.
pub fn read_keys(bytes: &[u8]) -> (keys: Result<Vec<Key>, JsonFailure>)
    ensures
        match json_keys(bytes@) {
            Some(list) => keys matches Ok(k) && k@ == list,
            None => keys == Err::<Vec<Key>, JsonFailure>(JsonFailure),
        },
{
    match decode(bytes) {
        Ok(keys) => Ok(keys),
        Err(_) => Err(JsonFailure),
    }
}

/// Writes a list of keys, so that reading gives it back.
pub fn write_keys(keys: &[Key]) -> (bytes: Vec<u8>)
    ensures
        bytes@ == ascii(list_text(keys@)),
        json_keys(bytes@) == Some(keys@),
{
    encode(keys).unwrap()
}

/// Reads a list of keys as an insertion of each.
pub fn read_inserts(bytes: &[u8]) -> (operations: Result<Vec<CRUDOperation>, JsonFailure>)
    ensures
        match json_keys(bytes@) {
            Some(list) => {
                &&& operations matches Ok(ops)
                &&& ops@ == list.map_values(
                    |key: Key| CRUDOperation::Insert(key, paper::PAYLOAD),
                )
            },
            None => operations == Err::<Vec<CRUDOperation>, JsonFailure>(JsonFailure),
        },
{
    match read_keys(bytes) {
        Ok(keys) => Ok(inserts_of(&keys)),
        Err(failure) => Err(failure),
    }
}

} // verus!
