//! A tree that writers and readers share.

use vstd::prelude::*;
use crate::crud_model::crud_api::{CRUDDispatcher, NodeVisits};
use crate::crud_model::crud_operation::CRUDOperation;
use crate::crud_model::crud_operation_result::CRUDOperationResult;
use crate::locking::locking_strategy::LockingStrategy;
use crate::record_model::v_record_point::VersionIndexType;
use crate::tree::bplus_tree::{BPlusTree, TreeState};
use crate::tree::{FAN_OUT, NUM_RECORDS};

verus! {

/// The tree that everything runs on.
pub type INDEX = BPlusTree<FAN_OUT, NUM_RECORDS>;

/// How a tree is shared.
pub enum TreeDispatcher {
    /// Behind a lock, because it does not keep its readers and writers apart itself.
    Wrapper(INDEX),
    /// As it is.
    Ref(INDEX),
}

/// What a transaction needs of the lock around a tree.
#[derive(Clone, Copy, Debug, PartialEq, Eq, Structural)]
pub enum Access {
    /// There is no lock.
    Free,
    /// It may share the tree with other readers.
    Shared,
    /// It needs the tree for itself.
    Exclusive,
}

/// A tree without records.
#[allow(non_snake_case)]
pub fn new_INDEX(strategy: LockingStrategy, kind: VersionIndexType) -> (index: INDEX)
    ensures
        index.wf(),
        index@ == (TreeState { records: Map::empty(), clock: 1 }),
        index.levels() == 1,
        index.strategy() == strategy,
        index.kind() == kind,
{
    BPlusTree::new(strategy, kind)
}

impl TreeDispatcher {
    /// The tree.
    pub open spec fn inner(&self) -> INDEX {
        match self {
            TreeDispatcher::Wrapper(index) => *index,
            TreeDispatcher::Ref(index) => *index,
        }
    }

    /// A tree without records, behind a lock if only one thread may write.
    pub fn new(strategy: LockingStrategy, kind: VersionIndexType) -> (tree: Self)
        ensures
            tree is Wrapper == (strategy is MonoWriter),
            tree.inner().wf(),
            tree.inner()@ == (TreeState { records: Map::empty(), clock: 1 }),
            tree.inner().strategy() == strategy,
            tree.inner().kind() == kind,
    {
        let index = new_INDEX(strategy, kind);
        if strategy.is_mono_writer() {
            TreeDispatcher::Wrapper(index)
        } else {
            TreeDispatcher::Ref(index)
        }
    }

    /// The tree.
    pub fn as_index(&self) -> (index: &INDEX)
        ensures
            *index == self.inner(),
    {
        match self {
            TreeDispatcher::Wrapper(index) => index,
            TreeDispatcher::Ref(index) => index,
        }
    }

    /// The tree, to be changed in place.
    pub fn as_index_mut(&mut self) -> (index: &mut INDEX)
        ensures
            *index == old(self).inner(),
            final(self).inner() == *final(index),
            *final(self) is Wrapper == *old(self) is Wrapper,
    {
        match self {
            TreeDispatcher::Wrapper(index) => index,
            TreeDispatcher::Ref(index) => index,
        }
    }

    /// Runs a reading transaction.
    pub fn dispatch_read(&self, operation: CRUDOperation) -> (answer: (
        NodeVisits,
        CRUDOperationResult,
    ))
        requires
            self.inner().wf(),
            operation.reads(),
        ensures
            self.answered(operation, self, answer.0, answer.1),
    {
        self.as_index().dispatch_read(operation)
    }

    /// What a transaction needs of the lock.
    pub fn access(&self, operation: &CRUDOperation) -> (access: Access)
        ensures
            access == (if *self is Ref {
                Access::Free
            } else if operation.reads() {
                Access::Shared
            } else {
                Access::Exclusive
            }),
    {
        match self {
            TreeDispatcher::Ref(_) => Access::Free,
            TreeDispatcher::Wrapper(_) => if operation.is_read() {
                Access::Shared
            } else {
                Access::Exclusive
            },
        }
    }
}

impl CRUDDispatcher for TreeDispatcher {
    open spec fn ready(&self, operation: CRUDOperation) -> bool {
        self.inner().ready(operation)
    }

    open spec fn answered(
        &self,
        operation: CRUDOperation,
        after: &Self,
        visits: NodeVisits,
        result: CRUDOperationResult,
    ) -> bool {
        &&& after is Wrapper == self is Wrapper
        &&& self.inner().answered(operation, &after.inner(), visits, result)
    }

    fn dispatch(&mut self, operation: CRUDOperation) -> (answer: (
        NodeVisits,
        CRUDOperationResult,
    )) {
        match self {
            TreeDispatcher::Wrapper(index) => index.dispatch(operation),
            TreeDispatcher::Ref(index) => index.dispatch(operation),
        }
    }
}

/// A tree answers a transaction in the same way whether it is shared behind a lock or as it is,
/// and stays shared as it was.
pub proof fn law_shared_trees_answer_alike(
    before: &TreeDispatcher,
    operation: CRUDOperation,
    after: &TreeDispatcher,
    visits: NodeVisits,
    result: CRUDOperationResult,
)
    requires
        before.answered(operation, after, visits, result),
    ensures
        match (*before, *after) {
            (TreeDispatcher::Wrapper(b), TreeDispatcher::Wrapper(a)) => b.answered(
                operation,
                &a,
                visits,
                result,
            ),
            (TreeDispatcher::Ref(b), TreeDispatcher::Ref(a)) => b.answered(
                operation,
                &a,
                visits,
                result,
            ),
            _ => false,
        },
{
}

} // verus!
