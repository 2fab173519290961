//! Filling a tree with keys that are drawn at random.

use std::collections::HashMap;
use vstd::prelude::*;
use crate::crud_model::crud_api::CRUDDispatcher;
use crate::crud_model::crud_operation::CRUDOperation;
use crate::crud_model::crud_operation_result::CRUDOperationResult;
use crate::crud_model::dispatch;
use crate::random::random_between;
use crate::record_model::{Key, Payload, Version};
use crate::tree::bplus_tree::BPlusTree;
use crate::workload::runner;

verus! {

/// The payload of all records.
pub const PAYLOAD: Payload = 0;

/// Draws a key. The largest one is never drawn.
pub fn draw_key() -> (key: Key)
    ensures
        key < Key::MAX,
{
    random_between(0, Key::MAX - 1)
}

/// What became of a key that was drawn.
#[derive(Clone, Copy, Debug, PartialEq, Eq, Structural)]
pub enum Drawn {
    /// It was drawn before.
    Known,
    /// It is new, and was inserted.
    Inserted,
    /// It is new, but the tree has it.
    Failed,
}

/// Inserts a key that was drawn, unless it was drawn and inserted before, and keeps the version
/// at which it was inserted.
pub fn insert_drawn<const FAN_OUT: usize, const NUM_RECORDS: usize>(
    tree: &mut BPlusTree<FAN_OUT, NUM_RECORDS>,
    known: &mut HashMap<Key, Version>,
    key: Key,
) -> (drawn: Drawn)
    requires
        old(tree).wf(),
        !old(known)@.contains_key(key) ==> old(tree).ready(CRUDOperation::Insert(key, PAYLOAD)),
    ensures
        final(tree).wf(),
        final(tree).make() == old(tree).make(),
        final(tree).strategy() == old(tree).strategy(),
        drawn == (if old(known)@.contains_key(key) {
            Drawn::Known
        } else if dispatch::insertable(old(tree)@, key) {
            Drawn::Inserted
        } else {
            Drawn::Failed
        }),
        drawn is Known ==> final(tree)@ == old(tree)@,
        !(drawn is Known) ==> final(tree)@ == dispatch::inserted(
            old(tree)@,
            old(tree).kind(),
            key,
            PAYLOAD,
        ),
        final(known)@ == (if drawn is Inserted {
            old(known)@.insert(key, final(tree)@.clock)
        } else {
            old(known)@
        }),
{
    broadcast use vstd::std_specs::hash::group_hash_axioms;

    if known.contains_key(&key) {
        return Drawn::Known;
    }
    let ghost before = *tree;
    let (visits, answer) = tree.dispatch(CRUDOperation::Insert(key, PAYLOAD));
    proof {
        runner::lemma_step(
            &before,
            CRUDOperation::Insert(key, PAYLOAD),
            tree,
            visits,
            answer,
        );
    }
    match answer {
        CRUDOperationResult::Inserted(_, version) => {
            known.insert(key, version);
            Drawn::Inserted
        },
        _ => Drawn::Failed,
    }
}

} // verus!
