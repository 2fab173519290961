//! What comes of a transaction.

use vstd::prelude::*;
use vstd::string::*;
use crate::record_model::record_point::RecordPoint;
use crate::record_model::{Key, Payload, Version};
use crate::utils::text;

verus! {

/// What comes of a transaction.
///
/// `Error` says that it failed. `Inserted`, `Updated` and `Deleted` name the version that the
/// writer drew, the latter two with the payload that the record had before. Insertions and
/// deletions take effect at that version; so do updates where readers are optimistic, and
/// elsewhere at the version after it. `MatchedRecord` holds a potential match, and
/// `MatchedRecords` all matches.
#[derive(Clone, Debug)]
pub enum CRUDOperationResult {
    MatchedRecords(Vec<RecordPoint<Key, Payload>>),
    MatchedRecord(Option<RecordPoint<Key, Payload>>),
    Inserted(Key, Version),
    Updated(Key, Payload, Version),
    Deleted(Key, Payload, Version),
    ZeroAffected(CRUDOperationInnerReason),
    Error,
}

/// Why a transaction changed nothing.
#[derive(Clone, Copy, Debug, PartialEq, Eq, Structural)]
pub enum CRUDOperationInnerReason {
    KeyAlreadyDeleted,
    KeyDoesNotExist,
}

/// The lines that show some records.
pub open spec fn lines(records: Seq<RecordPoint<Key, Payload>>) -> Seq<char>
    decreases records.len(),
{
    if records.len() == 0 {
        Seq::empty()
    } else {
        lines(records.drop_last()) + records.last().text() + "\n"@
    }
}

/// The records that were read.
impl From<Vec<RecordPoint<Key, Payload>>> for CRUDOperationResult {
    fn from(records: Vec<RecordPoint<Key, Payload>>) -> (result: Self) {
        CRUDOperationResult::MatchedRecords(records)
    }
}

impl vstd::std_specs::convert::FromSpecImpl<Vec<RecordPoint<Key, Payload>>> for CRUDOperationResult {
    open spec fn obeys_from_spec() -> bool {
        true
    }

    open spec fn from_spec(records: Vec<RecordPoint<Key, Payload>>) -> Self {
        CRUDOperationResult::MatchedRecords(records)
    }
}

/// The record that was read, if there was one.
impl From<Option<RecordPoint<Key, Payload>>> for CRUDOperationResult {
    fn from(record: Option<RecordPoint<Key, Payload>>) -> (result: Self) {
        CRUDOperationResult::MatchedRecord(record)
    }
}

impl vstd::std_specs::convert::FromSpecImpl<Option<RecordPoint<Key, Payload>>> for CRUDOperationResult {
    open spec fn obeys_from_spec() -> bool {
        true
    }

    open spec fn from_spec(record: Option<RecordPoint<Key, Payload>>) -> Self {
        CRUDOperationResult::MatchedRecord(record)
    }
}

impl CRUDOperationResult {
    /// The failure.
    pub fn default() -> (result: Self)
        ensures
            result is Error,
    {
        CRUDOperationResult::Error
    }

    /// The result as text.
    pub open spec fn text(self) -> Seq<char> {
        match self {
            CRUDOperationResult::Error => "Error"@,
            CRUDOperationResult::MatchedRecord(record) => "MatchedRecord("@ + (match record {
                Some(found) => found.text(),
                None => "None"@,
            }) + ")"@,
            CRUDOperationResult::MatchedRecords(records) => "MatchedRecords[len="@
                + text::decimal(records@.len()) + "\n"@ + lines(records@) + "]"@,
            CRUDOperationResult::Inserted(key, version) => "Inserted(key: "@ + text::decimal(
                key as nat,
            ) + ", version: "@ + text::decimal(version as nat) + ")"@,
            CRUDOperationResult::Updated(key, payload, version) => "Updated(key: "@
                + text::decimal(key as nat) + ", payload: "@ + text::decimal(payload as nat)
                + ", version: "@ + text::decimal(version as nat) + ")"@,
            CRUDOperationResult::Deleted(key, payload, version) => "Deleted(key: "@
                + text::decimal(key as nat) + ", payload: "@ + text::decimal(payload as nat)
                + ", version: "@ + text::decimal(version as nat) + ")"@,
            CRUDOperationResult::ZeroAffected(CRUDOperationInnerReason::KeyAlreadyDeleted) =>
                "ZeroAffected(KeyAlreadyDeleted"@,
            CRUDOperationResult::ZeroAffected(CRUDOperationInnerReason::KeyDoesNotExist) =>
                "ZeroAffected(KeyDoesNotExist)"@,
        }
    }

    /// Writes the result.
    pub fn to_string(&self) -> (s: String)
        ensures
            s@ == self.text(),
    {
        match self {
            CRUDOperationResult::Error => String::from_str("Error"),
            CRUDOperationResult::MatchedRecord(record) => {
                let mut s = String::from_str("MatchedRecord(");
                match record {
                    Some(found) => s.append(found.to_string().as_str()),
                    None => s.append("None"),
                }
                s.append(")");
                s
            },
            CRUDOperationResult::MatchedRecords(records) => {
                let mut s = String::from_str("MatchedRecords[len=");
                let len: u64 = records.len() as u64;
                s.append(text::number(len).as_str());
                s.append("\n");
                let ghost head = s@;
                let mut i: usize = 0;
                assert(records@.take(0) =~= Seq::<RecordPoint<Key, Payload>>::empty());
                assert(head + lines(records@.take(0)) =~= head);
                while i < records.len()
                    invariant
                        i <= records@.len(),
                        s@ == head + lines(records@.take(i as int)),
                    decreases records@.len() - i,
                {
                    s.append(records[i].to_string().as_str());
                    s.append("\n");
                    proof {
                        let t = records@.take(i + 1);
                        assert(t.drop_last() =~= records@.take(i as int));
                        assert(t.last() == records@[i as int]);
                        assert(s@ =~= head + lines(t));
                    }
                    i = i + 1;
                }
                assert(records@.take(i as int) =~= records@);
                s.append("]");
                s
            },
            CRUDOperationResult::Inserted(key, version) => {
                let mut s = String::from_str("Inserted(key: ");
                s.append(text::number(*key).as_str());
                s.append(", version: ");
                s.append(text::number(*version).as_str());
                s.append(")");
                s
            },
            CRUDOperationResult::Updated(key, payload, version) => {
                let mut s = String::from_str("Updated(key: ");
                s.append(text::number(*key).as_str());
                s.append(", payload: ");
                s.append(text::number(*payload).as_str());
                s.append(", version: ");
                s.append(text::number(*version).as_str());
                s.append(")");
                s
            },
            CRUDOperationResult::Deleted(key, payload, version) => {
                let mut s = String::from_str("Deleted(key: ");
                s.append(text::number(*key).as_str());
                s.append(", payload: ");
                s.append(text::number(*payload).as_str());
                s.append(", version: ");
                s.append(text::number(*version).as_str());
                s.append(")");
                s
            },
            CRUDOperationResult::ZeroAffected(CRUDOperationInnerReason::KeyAlreadyDeleted) =>
                String::from_str("ZeroAffected(KeyAlreadyDeleted"),
            CRUDOperationResult::ZeroAffected(CRUDOperationInnerReason::KeyDoesNotExist) =>
                String::from_str("ZeroAffected(KeyDoesNotExist)"),
        }
    }
}

} // verus!
