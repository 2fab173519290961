//! What a transaction asks for.

use vstd::prelude::*;
use crate::record_model::{Key, Payload, Version};
use crate::utils::interval::Interval;

verus! {

/// A transaction.
#[derive(Clone, Copy, Debug)]
pub enum CRUDOperation {
    /// Does nothing, and fails.
    Empty,
    /// Inserts a record.
    Insert(Key, Payload),
    /// Gives a record another payload.
    Update(Key, Payload),
    /// Deletes a record.
    Delete(Key),
    /// Reads one record of a snapshot.
    Point(Key, Version),
    /// Reads a range of records of a snapshot.
    Range(Interval, Version),
    /// Reads the first record.
    PeekMin,
    /// Reads the last record.
    PeekMax,
    /// Deletes the first record.
    PopMin,
    /// Deletes the last record.
    PopMax,
}

impl CRUDOperation {
    /// The transaction changes nothing.
    pub open spec fn reads(self) -> bool {
        self is Point || self is Range || self is PeekMin || self is PeekMax
    }

    /// Whether the transaction only reads.
    pub fn is_read(&self) -> (r: bool)
        ensures
            r == self.reads(),
    {
        match self {
            CRUDOperation::Point(..) => true,
            CRUDOperation::Range(..) => true,
            CRUDOperation::PeekMin => true,
            CRUDOperation::PeekMax => true,
            _ => false,
        }
    }
}

} // verus!
