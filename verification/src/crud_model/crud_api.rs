//! The interface to whatever runs transactions.

use vstd::prelude::*;
use crate::crud_model::crud_operation::CRUDOperation;
use crate::crud_model::crud_operation_result::CRUDOperationResult;

verus! {

/// How many pages a transaction came by.
pub type NodeVisits = usize;

/// Something that runs transactions.
pub trait CRUDDispatcher {
    /// The transaction can be run.
    spec fn ready(&self, operation: CRUDOperation) -> bool;

    /// What running a transaction does and returns.
    spec fn answered(
        &self,
        operation: CRUDOperation,
        after: &Self,
        visits: NodeVisits,
        result: CRUDOperationResult,
    ) -> bool;

    /// Runs a transaction.
    fn dispatch(&mut self, operation: CRUDOperation) -> (answer: (NodeVisits, CRUDOperationResult))
        requires
            old(self).ready(operation),
        ensures
            old(self).answered(operation, final(self), answer.0, answer.1),
    ;
}

} // verus!
