//! One key with what it maps to.

use vstd::prelude::*;
use vstd::string::*;
use crate::utils::text;

verus! {

/// A key with the payload that was found under it.
#[derive(Clone, Copy, Debug)]
pub struct RecordPoint<Key, Payload> {
    pub key: Key,
    pub payload: Payload,
}

impl<Key, Payload> RecordPoint<Key, Payload> {
    /// A key with its payload.
    pub fn new(key: Key, payload: Payload) -> (record: Self)
        ensures
            record == (RecordPoint { key, payload }),
    {
        RecordPoint { key, payload }
    }
}

impl RecordPoint<u64, u64> {
    /// The record of the smallest key and the smallest payload.
    pub fn default() -> (record: Self)
        ensures
            record == (RecordPoint { key: 0u64, payload: 0u64 }),
    {
        RecordPoint { key: 0, payload: 0 }
    }

    /// The record as text.
    pub open spec fn text(self) -> Seq<char> {
        "RecordPoint(Key: "@ + text::decimal(self.key as nat) + ", Payload: "@ + text::decimal(
            self.payload as nat,
        ) + ")"@
    }

    /// Writes the record as text.
    pub fn to_string(&self) -> (s: String)
        ensures
            s@ == self.text(),
    {
        let mut s = String::from_str("RecordPoint(Key: ");
        s.append(text::number(self.key).as_str());
        s.append(", Payload: ");
        s.append(text::number(self.payload).as_str());
        s.append(")");
        s
    }
}

} // verus!
