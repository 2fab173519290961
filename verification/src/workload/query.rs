//! Query files: transactions of nine bytes each, a tag and a key in little-endian order.

use vstd::prelude::*;
use vstd::arithmetic::power2;
use crate::crud_model::crud_api::CRUDDispatcher;
use crate::crud_model::crud_operation::CRUDOperation;
use crate::crud_model::crud_operation_result::CRUDOperationResult;
use crate::record_model::versioned_entry::LIVE;
use crate::record_model::{Key, Payload};
use crate::tree::bplus_tree::BPlusTree;
use crate::workload::runner;

verus! {

/// The tag of an insertion.
pub const INSERT: u8 = 0;

/// The tag of an update.
pub const UPDATE: u8 = 1;

/// The tag of a deletion.
pub const DELETE: u8 = 2;

/// The length of a transaction in a query file.
pub const RECORD_LEN: usize = 9;

/// The payload that query files give to all records.
pub const PAYLOAD: Payload = 0;

/// A number in little-endian order.
pub open spec fn little_endian(s: Seq<u8>) -> nat
    decreases s.len(),
{
    if s.len() == 0 {
        0
    } else {
        s[0] as nat + 256 * little_endian(s.drop_first())
    }
}

/// How many transactions a query file holds. What is left at its end is ignored.
pub open spec fn query_count(bytes: Seq<u8>) -> int {
    bytes.len() as int / 9
}

/// The transaction that a tag and a key stand for.
pub open spec fn operation_of(tag: u8, key: Key) -> Option<CRUDOperation> {
    if tag == INSERT {
        Some(CRUDOperation::Insert(key, PAYLOAD))
    } else if tag == UPDATE {
        Some(CRUDOperation::Update(key, PAYLOAD))
    } else if tag == DELETE {
        Some(CRUDOperation::Delete(key))
    } else {
        None
    }
}

/// The transaction at a position of a query file.
pub open spec fn query_at(bytes: Seq<u8>, i: int) -> Option<CRUDOperation> {
    operation_of(
        bytes[9 * i],
        little_endian(bytes.subrange(9 * i + 1, 9 * i + 9)) as Key,
    )
}

/// Eight bytes make a key.
proof fn lemma_little_endian_bound(s: Seq<u8>)
    requires
        s.len() <= 8,
    ensures
        little_endian(s) < power2::pow2((8 * s.len()) as nat),
    decreases s.len(),
{
    power2::lemma2_to64();
    if s.len() > 0 {
        lemma_little_endian_bound(s.drop_first());
        let e = (8 * s.drop_first().len()) as nat;
        power2::lemma_pow2_adds(8, e);
        assert(power2::pow2(e + 8) == 256 * power2::pow2(e));
    }
}

/// Reads a key.
fn read_key(bytes: &[u8], from: usize) -> (key: Key)
    requires
        from + 8 <= bytes@.len(),
    ensures
        key == little_endian(bytes@.subrange(from as int, from + 8)),
{
    let total: usize = bytes.len();
    let mut key: u64 = 0;
    let mut left: usize = 8;
    assert(bytes@.subrange(from + 8, from + 8) =~= Seq::<u8>::empty());
    while left > 0
        invariant
            left <= 8,
            from + 8 <= bytes@.len() == total,
            key == little_endian(bytes@.subrange(from + left, from + 8)),
        decreases left,
    {
        left = left - 1;
        proof {
            let s = bytes@.subrange(from + left, from + 8);
            assert(s.drop_first() =~= bytes@.subrange(from + left + 1, from + 8));
            assert(s[0] == bytes@[from + left]);
            lemma_little_endian_bound(s);
            power2::lemma2_to64();
            if s.len() < 8 {
                power2::lemma_pow2_strictly_increases(
                    (8 * s.len()) as nat,
                    64,
                );
            }
        }
        key = key * 256 + bytes[from + left] as u64;
    }
    key
}

/// A tag that stands for no transaction.
#[derive(Clone, Copy, Debug, PartialEq, Eq, Structural)]
pub struct UnknownOperation {
    /// The position of the transaction.
    pub position: usize,
    pub tag: u8,
}

/// Reads a query file.
pub fn decode_queries(bytes: &[u8]) -> (queries: Result<Vec<CRUDOperation>, UnknownOperation>)
    ensures
        queries matches Ok(operations) ==> {
            &&& operations@.len() == query_count(bytes@)
            &&& forall|i: int| #![trigger operations@[i]]
                0 <= i < operations@.len() ==> query_at(bytes@, i) == Some(operations@[i])
        },
        queries matches Err(e) ==> {
            &&& e.position < query_count(bytes@)
            &&& e.tag == bytes@[9 * e.position]
            &&& query_at(bytes@, e.position as int) is None
            &&& forall|i: int| 0 <= i < e.position ==> #[trigger] query_at(bytes@, i) is Some
        },
{
    let mut operations: Vec<CRUDOperation> = Vec::new();
    let mut from: usize = 0;
    while bytes.len() - from >= RECORD_LEN
        invariant
            from == 9 * operations@.len(),
            from <= bytes@.len(),
            forall|i: int| #![trigger operations@[i]]
                0 <= i < operations@.len() ==> query_at(bytes@, i) == Some(operations@[i]),
            forall|i: int| 0 <= i < operations@.len() ==> #[trigger] query_at(bytes@, i) is Some,
        decreases bytes@.len() - from,
    {
        let tag = bytes[from];
        let key = read_key(bytes, from + 1);
        let ghost n = operations@.len() as int;
        assert(query_at(bytes@, n) == operation_of(tag, key));
        let operation = if tag == INSERT {
            CRUDOperation::Insert(key, PAYLOAD)
        } else if tag == UPDATE {
            CRUDOperation::Update(key, PAYLOAD)
        } else if tag == DELETE {
            CRUDOperation::Delete(key)
        } else {
            return Err(UnknownOperation { position: operations.len(), tag });
        };
        operations.push(operation);
        from = from + RECORD_LEN;
    }
    Ok(operations)
}

/// How far a replay came.
#[derive(Clone, Copy, Debug)]
pub struct Replay {
    /// How many transactions succeeded.
    pub executed: usize,
    /// The key of the last one that succeeded.
    pub last_key: Option<Key>,
    /// Whether the next one failed.
    pub failed: bool,
}

/// The key that a writing transaction is about.
pub open spec fn key_of(operation: CRUDOperation) -> Key {
    match operation {
        CRUDOperation::Insert(key, _) => key,
        CRUDOperation::Update(key, _) => key,
        CRUDOperation::Delete(key) => key,
        _ => 0,
    }
}

/// Query files hold nothing but writing transactions.
pub open spec fn is_query(operation: CRUDOperation) -> bool {
    operation is Insert || operation is Update || operation is Delete
}

/// Runs a transaction of a query file, and hands out its key if it succeeded.
fn dispatch_query<const FAN_OUT: usize, const NUM_RECORDS: usize>(
    tree: &mut BPlusTree<FAN_OUT, NUM_RECORDS>,
    operation: CRUDOperation,
) -> (key: Option<Key>)
    requires
        old(tree).ready(operation),
        is_query(operation),
    ensures
        final(tree).wf(),
        final(tree).make() == old(tree).make(),
        final(tree).strategy() == old(tree).strategy(),
        final(tree)@ == runner::step(old(tree)@, old(tree).make(), operation),
        final(tree)@.clock <= old(tree)@.clock + 2,
        key == (if runner::fails(old(tree)@, operation) {
            None
        } else {
            Some(key_of(operation))
        }),
{
    let ghost before = *tree;
    let (visits, answer) = tree.dispatch(operation);
    proof {
        runner::lemma_step(&before, operation, tree, visits, answer);
    }
    match answer {
        CRUDOperationResult::Inserted(key, _) => Some(key),
        CRUDOperationResult::Updated(key, _, _) => Some(key),
        CRUDOperationResult::Deleted(key, _, _) => Some(key),
        _ => None,
    }
}

/// Runs the transactions of a query file until one fails.
#[verifier::rlimit(90)]
#[verifier::spinoff_prover]
pub fn load_query<const FAN_OUT: usize, const NUM_RECORDS: usize>(
    tree: &mut BPlusTree<FAN_OUT, NUM_RECORDS>,
    operations: &[CRUDOperation],
) -> (replay: Replay)
    requires
        old(tree).wf(),
        old(tree)@.clock + 2 * operations@.len() < LIVE,
        runner::runnable(old(tree)@, old(tree).make(), operations@),
        forall|i: int| 0 <= i < operations@.len() ==> is_query(#[trigger] operations@[i]),
    ensures
        final(tree).wf(),
        final(tree).make() == old(tree).make(),
        final(tree).strategy() == old(tree).strategy(),
        replay.executed <= operations@.len(),
        forall|i: int|
            0 <= i < replay.executed ==> !runner::fails(
                runner::run(old(tree)@, old(tree).make(), operations@.take(i)),
                #[trigger] operations@[i],
            ),
        replay.last_key == (if replay.executed == 0 {
            None
        } else {
            Some(key_of(operations@[replay.executed - 1]))
        }),
        !replay.failed ==> {
            &&& replay.executed == operations@.len()
            &&& final(tree)@ == runner::run(old(tree)@, old(tree).make(), operations@)
        },
        replay.failed ==> {
            &&& replay.executed < operations@.len()
            &&& runner::fails(
                runner::run(
                    old(tree)@,
                    old(tree).make(),
                    operations@.take(replay.executed as int),
                ),
                operations@[replay.executed as int],
            )
            &&& final(tree)@ == runner::run(
                old(tree)@,
                old(tree).make(),
                operations@.take(replay.executed + 1),
            )
        },
{
    let mut replay = Replay { executed: 0, last_key: None, failed: false };
    let ghost start = tree@;
    let ghost make = tree.make();
    let total: usize = operations.len();
    assert(operations@.take(0) =~= Seq::<CRUDOperation>::empty());
    while replay.executed < total
        invariant
            total == operations@.len(),
            replay.executed <= total,
            start == old(tree)@,
            make == old(tree).make(),
            tree.wf(),
            tree.make() == make,
            tree.strategy() == old(tree).strategy(),
            start.clock + 2 * total < LIVE,
            tree@.clock <= start.clock + 2 * replay.executed,
            runner::runnable(start, make, operations@),
            tree@ == runner::run(start, make, operations@.take(replay.executed as int)),
            forall|i: int|
                0 <= i < replay.executed ==> !runner::fails(
                    runner::run(start, make, operations@.take(i)),
                    #[trigger] operations@[i],
                ),
            forall|i: int| 0 <= i < operations@.len() ==> is_query(#[trigger] operations@[i]),
            replay.last_key == (if replay.executed == 0 {
                None
            } else {
                Some(key_of(operations@[replay.executed - 1]))
            }),
            !replay.failed,
        decreases total - replay.executed,
    {
        let operation = operations[replay.executed];
        let ghost n = replay.executed as int;
        proof {
            runner::lemma_next(tree, start, operations@, n);
        }
        match dispatch_query(tree, operation) {
            Some(key) => {
                replay.last_key = Some(key);
            },
            None => {
                replay.failed = true;
                return replay;
            },
        }
        replay.executed = replay.executed + 1;
    }
    assert(operations@.take(total as int) =~= operations@);
    replay
}

} // verus!
