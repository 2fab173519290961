//! Running many transactions.

use vstd::prelude::*;
use crate::crud_model::crud_api::{CRUDDispatcher, NodeVisits};
use crate::crud_model::crud_operation::CRUDOperation;
use crate::crud_model::crud_operation_result::CRUDOperationResult;
use crate::crud_model::dispatch;
use crate::record_model::v_record_point::VersionIndexType;
use crate::record_model::versioned_entry::LIVE;
use crate::record_model::Key;
use crate::tree::bplus_tree;
use crate::tree::bplus_tree::{BPlusTree, TreeState};
use crate::utils::count;
use crate::version_index::index_view::IndexView;

verus! {

/// What makes trees run transactions in the same way.
pub struct Make {
    pub kind: VersionIndexType,
    pub optimistic: bool,
}

/// The state after a transaction.
pub open spec fn step(state: TreeState, make: Make, operation: CRUDOperation) -> TreeState {
    match operation {
        CRUDOperation::Insert(key, payload) => dispatch::inserted(state, make.kind, key, payload),
        CRUDOperation::Update(key, payload) => dispatch::updated(
            state,
            make.optimistic,
            key,
            payload,
        ),
        CRUDOperation::Delete(key) => dispatch::deleted(state, key),
        CRUDOperation::PopMin => if state.records == Map::<Key, IndexView>::empty() {
            state
        } else {
            dispatch::deleted(state, choose|key: Key| bplus_tree::is_first(state.records, key))
        },
        CRUDOperation::PopMax => if state.records == Map::<Key, IndexView>::empty() {
            state
        } else {
            dispatch::deleted(state, choose|key: Key| bplus_tree::is_last(state.records, key))
        },
        _ => state,
    }
}

/// Whether a transaction fails.
pub open spec fn fails(state: TreeState, operation: CRUDOperation) -> bool {
    match operation {
        CRUDOperation::Empty => true,
        CRUDOperation::Insert(key, _) => !dispatch::insertable(state, key),
        CRUDOperation::Update(key, _) => !dispatch::live(state, key),
        CRUDOperation::Delete(key) => !dispatch::live(state, key),
        CRUDOperation::PopMin => state.records == Map::<Key, IndexView>::empty()
            || !dispatch::live(state, choose|key: Key| bplus_tree::is_first(state.records, key)),
        CRUDOperation::PopMax => state.records == Map::<Key, IndexView>::empty()
            || !dispatch::live(state, choose|key: Key| bplus_tree::is_last(state.records, key)),
        _ => false,
    }
}

/// The state after some transactions, one after the other.
pub open spec fn run(state: TreeState, make: Make, operations: Seq<CRUDOperation>) -> TreeState
    decreases operations.len(),
{
    if operations.len() == 0 {
        state
    } else {
        step(run(state, make, operations.drop_last()), make, operations.last())
    }
}

/// How many of them fail.
pub open spec fn failures(state: TreeState, make: Make, operations: Seq<CRUDOperation>) -> nat
    decreases operations.len(),
{
    if operations.len() == 0 {
        0
    } else {
        let before = run(state, make, operations.drop_last());
        failures(state, make, operations.drop_last()) + if fails(before, operations.last()) {
            1nat
        } else {
            0nat
        }
    }
}

/// They can be run: no record is inserted anew whose versions are kept in a tree.
pub open spec fn runnable(state: TreeState, make: Make, operations: Seq<CRUDOperation>) -> bool {
    make.kind is BTree ==> forall|i: int|
        0 <= i < operations.len() ==> (#[trigger] operations[i] matches CRUDOperation::Insert(
            key,
            _,
        ) ==> !run(state, make, operations.take(i)).records.contains_key(key))
}

/// An answer to a transaction.
pub type Answer = (NodeVisits, CRUDOperationResult);

/// The trees that some transactions lead through, and their answers.
pub open spec fn traced<const FAN_OUT: usize, const NUM_RECORDS: usize>(
    trees: Seq<BPlusTree<FAN_OUT, NUM_RECORDS>>,
    operations: Seq<CRUDOperation>,
    answers: Seq<Answer>,
) -> bool {
    &&& trees.len() == operations.len() + 1
    &&& answers.len() == operations.len()
    &&& forall|i: int| #![trigger answers[i]]
        0 <= i < operations.len() ==> trees[i].answered(
            operations[i],
            &trees[i + 1],
            answers[i].0,
            answers[i].1,
        )
}

/// How many pages the transactions came by.
pub open spec fn visits_of(answers: Seq<Answer>) -> nat
    decreases answers.len(),
{
    if answers.len() == 0 {
        0
    } else {
        visits_of(answers.drop_last()) + answers.last().0 as nat
    }
}

/// What came of some transactions.
#[derive(Clone, Copy, Debug)]
pub struct RunResult {
    pub success: u64,
    pub errors: u64,
    pub node_visits: NodeVisits,
}

impl<const FAN_OUT: usize, const NUM_RECORDS: usize> BPlusTree<FAN_OUT, NUM_RECORDS> {
    /// How the tree runs transactions.
    pub open spec fn make(&self) -> Make {
        Make { kind: self.kind(), optimistic: self.strategy().optimistic() }
    }
}

/// What a tree answers is what [`step`] and [`fails`] say.
pub proof fn lemma_step<const FAN_OUT: usize, const NUM_RECORDS: usize>(
    before: &BPlusTree<FAN_OUT, NUM_RECORDS>,
    operation: CRUDOperation,
    after: &BPlusTree<FAN_OUT, NUM_RECORDS>,
    visits: NodeVisits,
    result: CRUDOperationResult,
)
    requires
        before.answered(operation, after, visits, result),
    ensures
        after.wf(),
        after.make() == before.make(),
        after.kind() == before.kind(),
        after.strategy() == before.strategy(),
        after@ == step(before@, before.make(), operation),
        (result is Error) == fails(before@, operation),
        before@.clock + 2 < LIVE ==> after@.clock <= before@.clock + 2,
{
    let m = before@.records;
    match operation {
        CRUDOperation::PopMin => {
            if m != Map::<Key, IndexView>::empty() {
                let a = choose|key: Key| #[trigger]
                    bplus_tree::is_first(m, key) && after@ == dispatch::deleted(before@, key)
                        && result == dispatch::deletion_answer(before@, key);
                let b = choose|key: Key| bplus_tree::is_first(m, key);
                assert(bplus_tree::is_first(m, b));
                assert(a == b);
            }
        },
        CRUDOperation::PopMax => {
            if m != Map::<Key, IndexView>::empty() {
                let a = choose|key: Key| #[trigger]
                    bplus_tree::is_last(m, key) && after@ == dispatch::deleted(before@, key)
                        && result == dispatch::deletion_answer(before@, key);
                let b = choose|key: Key| bplus_tree::is_last(m, key);
                assert(bplus_tree::is_last(m, b));
                assert(a == b);
            }
        },
        _ => {},
    }
}

/// The next of some transactions can be run, and leads to the next state.
pub proof fn lemma_next<const FAN_OUT: usize, const NUM_RECORDS: usize>(
    tree: &BPlusTree<FAN_OUT, NUM_RECORDS>,
    start: TreeState,
    operations: Seq<CRUDOperation>,
    n: int,
)
    requires
        tree.wf(),
        runnable(start, tree.make(), operations),
        0 <= n < operations.len(),
        tree@ == run(start, tree.make(), operations.take(n)),
        tree@.clock + 2 < LIVE,
    ensures
        tree.ready(operations[n]),
        run(start, tree.make(), operations.take(n + 1)) == step(
            tree@,
            tree.make(),
            operations[n],
        ),
{
    let t = operations.take(n + 1);
    assert(t.drop_last() =~= operations.take(n));
    assert(t.last() == operations[n]);
}

/// Runs some transactions, one after the other, and counts what came of them. Visits are
/// counted as far as can be counted to.
pub fn run_all<const FAN_OUT: usize, const NUM_RECORDS: usize>(
    tree: &mut BPlusTree<FAN_OUT, NUM_RECORDS>,
    operations: &[CRUDOperation],
) -> (result: RunResult)
    requires
        old(tree).wf(),
        old(tree)@.clock + 2 * operations@.len() < LIVE,
        runnable(old(tree)@, old(tree).make(), operations@),
    ensures
        final(tree).wf(),
        final(tree).make() == old(tree).make(),
        final(tree).strategy() == old(tree).strategy(),
        final(tree)@ == run(old(tree)@, old(tree).make(), operations@),
        result.errors == failures(old(tree)@, old(tree).make(), operations@),
        result.success + result.errors == operations@.len(),
        exists|trees: Seq<BPlusTree<FAN_OUT, NUM_RECORDS>>, answers: Seq<Answer>|
            #[trigger] traced(trees, operations@, answers) && trees[0] == *old(tree)
                && trees.last() == *final(tree) && result.node_visits == count::saturated(
                visits_of(answers),
            ),
{
    let mut result = RunResult { success: 0, errors: 0, node_visits: 0 };
    let mut i: usize = 0;
    let ghost start = tree@;
    let ghost make = tree.make();
    let total: usize = operations.len();
    let ghost mut trees: Seq<BPlusTree<FAN_OUT, NUM_RECORDS>> = seq![*tree];
    let ghost mut answers: Seq<Answer> = Seq::empty();
    assert(operations@.take(0) =~= Seq::<CRUDOperation>::empty());
    while i < total
        invariant
            total == operations@.len(),
            i <= total,
            start == old(tree)@,
            make == old(tree).make(),
            tree.wf(),
            tree.make() == make,
            tree.strategy() == old(tree).strategy(),
            start.clock + 2 * total < LIVE,
            tree@.clock <= start.clock + 2 * i,
            runnable(start, make, operations@),
            tree@ == run(start, make, operations@.take(i as int)),
            result.errors == failures(start, make, operations@.take(i as int)),
            result.success + result.errors == i,
            traced(trees, operations@.take(i as int), answers),
            trees[0] == *old(tree),
            trees.last() == *tree,
            result.node_visits == count::saturated(visits_of(answers)),
        decreases total - i,
    {
        let operation = operations[i];
        let ghost before = *tree;
        let (visits, answer) = tree.dispatch(operation);
        proof {
            lemma_step(&before, operation, tree, visits, answer);
            let t = operations@.take(i + 1);
            assert(t.drop_last() =~= operations@.take(i as int));
            assert(t.last() == operations@[i as int]);
            let more = answers.push((visits, answer));
            let grown = trees.push(*tree);
            assert(more.drop_last() =~= answers);
            assert forall|k: int| #![trigger more[k]] 0 <= k < i + 1 implies grown[k].answered(
                t[k],
                &grown[k + 1],
                more[k].0,
                more[k].1,
            ) by {
                if k < i {
                    assert(more[k] == answers[k]);
                    assert(operations@.take(i as int)[k] == t[k]);
                }
            }
            answers = more;
            trees = grown;
        }
        match answer {
            CRUDOperationResult::Error => {
                result.errors = result.errors + 1;
            },
            _ => {
                result.success = result.success + 1;
            },
        }
        result.node_visits = result.node_visits.saturating_add(visits);
        i = i + 1;
    }
    assert(operations@.take(i as int) =~= operations@);
    result
}

} // verus!
