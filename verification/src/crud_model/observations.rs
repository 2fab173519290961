//! What callers can tell of a tree: which answer a transaction gives, and what it makes point
//! queries show from then on.

use vstd::prelude::*;
use crate::crud_model::crud_api::{CRUDDispatcher, NodeVisits};
use crate::crud_model::crud_operation::CRUDOperation;
use crate::crud_model::crud_operation_result::CRUDOperationResult;
use crate::crud_model::dispatch;
use crate::crud_model::laws;
use crate::locking::locking_strategy::LockingStrategy;
use crate::record_model::record_point::RecordPoint;
use crate::record_model::v_record_point::VersionIndexType;
use crate::record_model::versioned_entry::LIVE;
use crate::record_model::{Key, Payload, Version};
use crate::tree::bplus_tree;
use crate::tree::bplus_tree::{BPlusTree, TreeState};
use crate::utils::interval::Interval;
use crate::version_index::index_view;
use crate::version_index::index_view::IndexView;

verus! {

/// A record is live if and only if a point query of the newest snapshot, or of any later one,
/// shows it, and it then shows the newest payload.
pub proof fn law_live_is_shown(
    state: TreeState,
    kind: VersionIndexType,
    key: Key,
    version: Version,
)
    requires
        bplus_tree::sound(state.records, state.clock, kind),
        !(kind is BTree),
        state.clock <= version < LIVE,
    ensures
        dispatch::live(state, key) == (dispatch::point_answer(state, key, version) is Some),
        dispatch::live(state, key) ==> dispatch::point_answer(state, key, version) == Some(
            RecordPoint { key, payload: state.records[key].newest() },
        ),
        dispatch::point_answer(state, key, version) == dispatch::point_answer(
            state,
            key,
            state.clock,
        ),
{
    if state.records.contains_key(key) {
        assert(bplus_tree::sound_history(state.records[key], kind, state.clock));
        index_view::law_live_is_visible(state.records[key], state.clock, version);
        index_view::law_live_is_visible(state.records[key], state.clock, state.clock);
    }
}

/// A live record cannot be inserted again: such an insertion changes no record.
pub proof fn law_live_records_refuse_insertion(
    state: TreeState,
    kind: VersionIndexType,
    key: Key,
    payload: Payload,
)
    ensures
        dispatch::live(state, key) ==> !dispatch::insertable(state, key),
        dispatch::live(state, key) ==> dispatch::inserted(state, kind, key, payload).records
            == state.records,
        !dispatch::live(state, key) ==> dispatch::insertable(state, key),
{
}

/// A deletion hands out what a point query of the newest snapshot shows, and is refused where
/// that shows nothing.
pub proof fn law_deletion_answers_the_shown_payload(
    state: TreeState,
    kind: VersionIndexType,
    key: Key,
)
    requires
        bplus_tree::sound(state.records, state.clock, kind),
        !(kind is BTree),
    ensures
        match dispatch::point_answer(state, key, state.clock) {
            Some(r) => dispatch::deletion_answer(state, key) == CRUDOperationResult::Deleted(
                key,
                r.payload,
                (state.clock + 1) as Version,
            ),
            None => dispatch::deletion_answer(state, key) is Error,
        },
{
    law_live_is_shown(state, kind, key, state.clock);
}

/// A peek at a record tells what a point query of the newest snapshot tells.
pub proof fn law_peek_is_a_point_query(state: TreeState, kind: VersionIndexType, key: Key)
    requires
        bplus_tree::sound(state.records, state.clock, kind),
        !(kind is BTree),
    ensures
        dispatch::peek_answer(state, key) == dispatch::point_answer(state, key, state.clock),
{
    law_live_is_shown(state, kind, key, state.clock);
}

/// What a point query of snapshot `version` shows of a key.
pub open spec fn shown<const FAN_OUT: usize, const NUM_RECORDS: usize>(
    tree: &BPlusTree<FAN_OUT, NUM_RECORDS>,
    key: Key,
    version: Version,
) -> Option<RecordPoint<Key, Payload>> {
    dispatch::point_answer(tree@, key, version)
}

/// The two trees show the same of every other key to every snapshot, and of the key itself to
/// the snapshots that were there before.
pub open spec fn same_elsewhere<const FAN_OUT: usize, const NUM_RECORDS: usize>(
    before: &BPlusTree<FAN_OUT, NUM_RECORDS>,
    after: &BPlusTree<FAN_OUT, NUM_RECORDS>,
    key: Key,
) -> bool {
    &&& forall|k: Key, v: Version|
        k != key || v <= before@.clock ==> #[trigger] shown(after, k, v) == shown(before, k, v)
    &&& forall|k: Key| k != key ==> #[trigger] after@.records.contains_key(k)
        == before@.records.contains_key(k)
}

/// The snapshots from `version` on show the payload.
pub open spec fn shows_from<const FAN_OUT: usize, const NUM_RECORDS: usize>(
    after: &BPlusTree<FAN_OUT, NUM_RECORDS>,
    key: Key,
    version: int,
    payload: Payload,
) -> bool {
    forall|v: Version|
        version <= v < LIVE ==> #[trigger] shown(after, key, v) == Some(
            RecordPoint { key, payload },
        )
}

/// No snapshot from `version` on shows the key.
pub open spec fn hides_from<const FAN_OUT: usize, const NUM_RECORDS: usize>(
    after: &BPlusTree<FAN_OUT, NUM_RECORDS>,
    key: Key,
    version: int,
) -> bool {
    forall|v: Version| version <= v ==> #[trigger] shown(after, key, v) is None
}

/// A new tree shows nothing, and stores no key.
pub proof fn law_new_trees_are_empty<const FAN_OUT: usize, const NUM_RECORDS: usize>(
    tree: &BPlusTree<FAN_OUT, NUM_RECORDS>,
    key: Key,
    version: Version,
)
    requires
        tree@.records == Map::<Key, IndexView>::empty(),
    ensures
        shown(tree, key, version) is None,
{
}

/// The future shows what the present shows: no snapshot later than the clock differs from the
/// newest one.
pub proof fn law_later_snapshots_show_the_present<const FAN_OUT: usize, const NUM_RECORDS: usize>(
    tree: &BPlusTree<FAN_OUT, NUM_RECORDS>,
    key: Key,
    version: Version,
)
    requires
        tree.wf(),
        tree@.clock <= version < LIVE,
    ensures
        shown(tree, key, version) == shown(tree, key, tree@.clock),
{
    tree.law_state();
    if tree.kind() is BTree {
        law_version_trees_show_nothing(tree, key, version);
        law_version_trees_show_nothing(tree, key, tree@.clock);
    } else {
        law_live_is_shown(tree@, tree.kind(), key, version);
    }
}

/// Records whose versions are kept in a tree lose the first version, and with it every other:
/// no snapshot shows them.
pub proof fn law_version_trees_show_nothing<const FAN_OUT: usize, const NUM_RECORDS: usize>(
    tree: &BPlusTree<FAN_OUT, NUM_RECORDS>,
    key: Key,
    version: Version,
)
    requires
        tree.wf(),
        tree.kind() is BTree,
    ensures
        shown(tree, key, version) is None,
{
    tree.law_state();
    if tree@.records.contains_key(key) {
        assert(bplus_tree::sound_history(tree@.records[key], tree.kind(), tree@.clock));
    }
}

/// An insertion of a key that the newest snapshot shows is refused and changes no record. Any
/// other insertion succeeds at the next version, and the snapshots from there on show the
/// payload. The older snapshots and the other keys stay as they are, and the clock moves on by
/// one.
pub proof fn law_insertion<const FAN_OUT: usize, const NUM_RECORDS: usize>(
    before: &BPlusTree<FAN_OUT, NUM_RECORDS>,
    key: Key,
    payload: Payload,
    after: &BPlusTree<FAN_OUT, NUM_RECORDS>,
    visits: NodeVisits,
    result: CRUDOperationResult,
)
    requires
        before.ready(CRUDOperation::Insert(key, payload)),
        before.answered(CRUDOperation::Insert(key, payload), after, visits, result),
    ensures
        after@.clock == before@.clock + 1,
        after@.records.contains_key(key),
        same_elsewhere(before, after, key),
        match shown(before, key, before@.clock) {
            Some(_) => {
                &&& result is Error
                &&& after@.records == before@.records
            },
            None => {
                &&& result == CRUDOperationResult::Inserted(key, (before@.clock + 1) as Version)
                &&& !(before.kind() is BTree) ==> shows_from(
                    after,
                    key,
                    before@.clock + 1,
                    payload,
                )
            },
        },
{
    let (b, kind) = (before@, before.kind());
    before.law_state();
    assert forall|k: Key, v: Version| k != key || v <= b.clock implies #[trigger] shown(
        after,
        k,
        v,
    ) == shown(before, k, v) by {
        if k == key {
            laws::law_insert_keeps_snapshots(b, kind, key, payload, k, v);
        }
    }
    if kind is BTree {
        law_version_trees_show_nothing(before, key, b.clock);
    } else {
        law_live_is_shown(b, kind, key, b.clock);
        if shown(before, key, b.clock) is None {
            assert forall|v: Version| b.clock + 1 <= v < LIVE implies #[trigger] shown(
                after,
                key,
                v,
            ) == Some(RecordPoint { key, payload }) by {
                laws::law_read_after_insert(b, kind, key, payload, v);
            }
        }
    }
}

/// An update of a key that the newest snapshot shows hands out the payload that it shows and
/// succeeds at the next version. The new payload is shown from that version on where readers
/// validate what they read, and from the one after it where they lock. Any other update is
/// refused and changes no record. Until then the old payload is shown, and the older snapshots
/// and the other keys stay as they are.
pub proof fn law_update<const FAN_OUT: usize, const NUM_RECORDS: usize>(
    before: &BPlusTree<FAN_OUT, NUM_RECORDS>,
    key: Key,
    payload: Payload,
    after: &BPlusTree<FAN_OUT, NUM_RECORDS>,
    visits: NodeVisits,
    result: CRUDOperationResult,
)
    requires
        before.ready(CRUDOperation::Update(key, payload)),
        before.answered(CRUDOperation::Update(key, payload), after, visits, result),
    ensures
        after@.clock == before@.clock + match before.strategy() {
            LockingStrategy::OLC => 1int,
            LockingStrategy::LightweightHybridLock { .. } => 1int,
            LockingStrategy::HybridLocking { .. } => 1int,
            LockingStrategy::ORWC { .. } => 2int,
            LockingStrategy::LockCoupling => 2int,
            LockingStrategy::MonoWriter => 2int,
        },
        after@.records.contains_key(key) == before@.records.contains_key(key),
        same_elsewhere(before, after, key),
        match shown(before, key, before@.clock) {
            Some(r) => {
                &&& result == CRUDOperationResult::Updated(
                    key,
                    r.payload,
                    (before@.clock + 1) as Version,
                )
                &&& shows_from(after, key, after@.clock as int, payload)
                &&& forall|v: Version|
                    before@.clock <= v < after@.clock ==> #[trigger] shown(after, key, v) == Some(r)
            },
            None => {
                &&& result is Error
                &&& after@.records == before@.records
            },
        },
{
    let (b, kind, optimistic) = (before@, before.kind(), before.strategy().optimistic());
    before.law_state();
    assert forall|k: Key, v: Version| k != key || v <= b.clock implies #[trigger] shown(
        after,
        k,
        v,
    ) == shown(before, k, v) by {
        if k == key {
            laws::law_update_keeps_snapshots(b, kind, optimistic, key, payload, k, v);
        }
    }
    if kind is BTree {
        law_version_trees_show_nothing(before, key, b.clock);
        if b.records.contains_key(key) {
            assert(bplus_tree::sound_history(b.records[key], kind, b.clock));
        }
    } else {
        law_live_is_shown(b, kind, key, b.clock);
        if shown(before, key, b.clock) is Some {
            assert forall|v: Version| after@.clock <= v < LIVE implies #[trigger] shown(
                after,
                key,
                v,
            ) == Some(RecordPoint { key, payload }) by {
                laws::law_read_after_update(b, kind, optimistic, key, payload, v);
            }
            assert forall|v: Version| b.clock <= v < after@.clock implies #[trigger] shown(
                after,
                key,
                v,
            ) == shown(before, key, b.clock) by {
                let view = b.records[key];
                assert(bplus_tree::sound_history(view, kind, b.clock));
                law_live_is_shown(b, kind, key, v);
                index_view::law_timely_later(view, b.clock, v);
                index_view::law_snapshot_survives_append(view, after@.clock, payload, v, v);
            }
        }
    }
}

/// What a deletion of a key does: where the newest snapshot shows the key, it hands out the
/// payload that it shows, succeeds at the next version, and no snapshot from there on shows the
/// key. Otherwise it is refused and changes no record. The older snapshots and the other keys
/// stay as they are, and the clock moves on by one.
pub open spec fn removed<const FAN_OUT: usize, const NUM_RECORDS: usize>(
    before: &BPlusTree<FAN_OUT, NUM_RECORDS>,
    key: Key,
    after: &BPlusTree<FAN_OUT, NUM_RECORDS>,
    result: CRUDOperationResult,
) -> bool {
    &&& after@.clock == before@.clock + 1
    &&& after@.records.contains_key(key) == before@.records.contains_key(key)
    &&& same_elsewhere(before, after, key)
    &&& match shown(before, key, before@.clock) {
        Some(r) => {
            &&& result == CRUDOperationResult::Deleted(
                key,
                r.payload,
                (before@.clock + 1) as Version,
            )
            &&& hides_from(after, key, before@.clock + 1)
        },
        None => {
            &&& result is Error
            &&& after@.records == before@.records
        },
    }
}

/// The state after a deletion and its answer, as callers can tell them.
proof fn lemma_removed<const FAN_OUT: usize, const NUM_RECORDS: usize>(
    before: &BPlusTree<FAN_OUT, NUM_RECORDS>,
    key: Key,
    after: &BPlusTree<FAN_OUT, NUM_RECORDS>,
    result: CRUDOperationResult,
)
    requires
        before.wf(),
        before@.clock + 2 < LIVE,
        after@ == dispatch::deleted(before@, key),
        result == dispatch::deletion_answer(before@, key),
    ensures
        removed(before, key, after, result),
{
    let (b, kind) = (before@, before.kind());
    before.law_state();
    assert forall|k: Key, v: Version| k != key || v <= b.clock implies #[trigger] shown(
        after,
        k,
        v,
    ) == shown(before, k, v) by {
        if k == key {
            laws::law_delete_keeps_snapshots(b, kind, key, k, v);
        }
    }
    if kind is BTree {
        law_version_trees_show_nothing(before, key, b.clock);
        if b.records.contains_key(key) {
            assert(bplus_tree::sound_history(b.records[key], kind, b.clock));
        }
    } else {
        law_live_is_shown(b, kind, key, b.clock);
        if shown(before, key, b.clock) is Some {
            assert forall|v: Version| b.clock + 1 <= v implies #[trigger] shown(
                after,
                key,
                v,
            ) is None by {
                laws::law_read_after_delete(b, kind, key, v);
            }
        }
    }
}

/// A deletion of a key that the newest snapshot shows hands out the payload that it shows and
/// hides the key from the next version on. Any other deletion is refused.
pub proof fn law_deletion<const FAN_OUT: usize, const NUM_RECORDS: usize>(
    before: &BPlusTree<FAN_OUT, NUM_RECORDS>,
    key: Key,
    after: &BPlusTree<FAN_OUT, NUM_RECORDS>,
    visits: NodeVisits,
    result: CRUDOperationResult,
)
    requires
        before.ready(CRUDOperation::Delete(key)),
        before.answered(CRUDOperation::Delete(key), after, visits, result),
    ensures
        removed(before, key, after, result),
{
    lemma_removed(before, key, after, result);
}

/// The removal of the first record is a deletion of the smallest key that is stored. A tree
/// without keys refuses it and stays as it is.
pub proof fn law_pop_min<const FAN_OUT: usize, const NUM_RECORDS: usize>(
    before: &BPlusTree<FAN_OUT, NUM_RECORDS>,
    key: Key,
    after: &BPlusTree<FAN_OUT, NUM_RECORDS>,
    visits: NodeVisits,
    result: CRUDOperationResult,
)
    requires
        before.ready(CRUDOperation::PopMin),
        before.answered(CRUDOperation::PopMin, after, visits, result),
    ensures
        before@.records.contains_key(key) && (forall|k: Key| #[trigger]
            before@.records.contains_key(k) ==> key <= k) ==> removed(before, key, after, result),
        (forall|k: Key| !#[trigger] before@.records.contains_key(k)) ==> result is Error && *after
            == *before,
{
    let records = before@.records;
    if records =~= Map::<Key, IndexView>::empty() {
    } else {
        let first = choose|first: Key| #[trigger]
            bplus_tree::is_first(records, first) && after@ == dispatch::deleted(before@, first)
                && result == dispatch::deletion_answer(before@, first);
        assert(records.contains_key(first));
        lemma_removed(before, first, after, result);
        if records.contains_key(key) && (forall|k: Key| #[trigger]
            records.contains_key(k) ==> key <= k) {
            assert(key == first);
        }
    }
}

/// The removal of the last record is a deletion of the largest key that is stored. A tree
/// without keys refuses it and stays as it is.
pub proof fn law_pop_max<const FAN_OUT: usize, const NUM_RECORDS: usize>(
    before: &BPlusTree<FAN_OUT, NUM_RECORDS>,
    key: Key,
    after: &BPlusTree<FAN_OUT, NUM_RECORDS>,
    visits: NodeVisits,
    result: CRUDOperationResult,
)
    requires
        before.ready(CRUDOperation::PopMax),
        before.answered(CRUDOperation::PopMax, after, visits, result),
    ensures
        before@.records.contains_key(key) && (forall|k: Key| #[trigger]
            before@.records.contains_key(k) ==> k <= key) ==> removed(before, key, after, result),
        (forall|k: Key| !#[trigger] before@.records.contains_key(k)) ==> result is Error && *after
            == *before,
{
    let records = before@.records;
    if records =~= Map::<Key, IndexView>::empty() {
    } else {
        let last = choose|last: Key| #[trigger]
            bplus_tree::is_last(records, last) && after@ == dispatch::deleted(before@, last)
                && result == dispatch::deletion_answer(before@, last);
        assert(records.contains_key(last));
        lemma_removed(before, last, after, result);
        if records.contains_key(key) && (forall|k: Key| #[trigger]
            records.contains_key(k) ==> k <= key) {
            assert(key == last);
        }
    }
}

/// A peek at an end of the tree answers as a point query of the newest snapshot for the key at
/// that end, and with nothing where no key is stored. The tree stays as it is.
pub proof fn law_peeks<const FAN_OUT: usize, const NUM_RECORDS: usize>(
    before: &BPlusTree<FAN_OUT, NUM_RECORDS>,
    operation: CRUDOperation,
    key: Key,
    after: &BPlusTree<FAN_OUT, NUM_RECORDS>,
    visits: NodeVisits,
    result: CRUDOperationResult,
)
    requires
        before.ready(operation),
        before.answered(operation, after, visits, result),
        operation is PeekMin || operation is PeekMax,
    ensures
        *after == *before,
        (forall|k: Key| !#[trigger] before@.records.contains_key(k)) ==> result
            == CRUDOperationResult::MatchedRecord(None),
        operation is PeekMin && before@.records.contains_key(key) && (forall|k: Key| #[trigger]
            before@.records.contains_key(k) ==> key <= k) ==> result
            == CRUDOperationResult::MatchedRecord(shown(before, key, before@.clock)),
        operation is PeekMax && before@.records.contains_key(key) && (forall|k: Key| #[trigger]
            before@.records.contains_key(k) ==> k <= key) ==> result
            == CRUDOperationResult::MatchedRecord(shown(before, key, before@.clock)),
{
    let records = before@.records;
    before.law_state();
    if records =~= Map::<Key, IndexView>::empty() {
    } else {
        let end = if operation is PeekMin {
            choose|end: Key| #[trigger]
                bplus_tree::is_first(records, end) && result
                    == CRUDOperationResult::MatchedRecord(dispatch::peek_answer(before@, end))
        } else {
            choose|end: Key| #[trigger]
                bplus_tree::is_last(records, end) && result
                    == CRUDOperationResult::MatchedRecord(dispatch::peek_answer(before@, end))
        };
        assert(records.contains_key(end));
        if before.kind() is BTree {
            law_version_trees_show_nothing(before, end, before@.clock);
            assert(bplus_tree::sound_history(records[end], before.kind(), before@.clock));
        } else {
            law_peek_is_a_point_query(before@, before.kind(), end);
        }
    }
}

/// A point query answers with what the snapshot shows of its key, under the key itself, and
/// leaves the tree as it is.
pub proof fn law_point_query<const FAN_OUT: usize, const NUM_RECORDS: usize>(
    before: &BPlusTree<FAN_OUT, NUM_RECORDS>,
    key: Key,
    version: Version,
    after: &BPlusTree<FAN_OUT, NUM_RECORDS>,
    visits: NodeVisits,
    result: CRUDOperationResult,
)
    requires
        before.answered(CRUDOperation::Point(key, version), after, visits, result),
    ensures
        *after == *before,
        result == CRUDOperationResult::MatchedRecord(shown(before, key, version)),
        shown(before, key, version) matches Some(r) ==> r.key == key
            && before@.records.contains_key(key),
{
}

/// A range query lists the records from the lower end of its interval to the upper end, both
/// included, that point queries of the same snapshot show: each of them, once, in ascending
/// order of the keys, and nothing else. It leaves the tree as it is.
pub proof fn law_range_query<const FAN_OUT: usize, const NUM_RECORDS: usize>(
    before: &BPlusTree<FAN_OUT, NUM_RECORDS>,
    lower: Key,
    upper: Key,
    version: Version,
    after: &BPlusTree<FAN_OUT, NUM_RECORDS>,
    visits: NodeVisits,
    result: CRUDOperationResult,
)
    requires
        before.answered(
            CRUDOperation::Range(Interval { lower, upper }, version),
            after,
            visits,
            result,
        ),
    ensures
        *after == *before,
        result matches CRUDOperationResult::MatchedRecords(out) && {
            &&& forall|i: int, j: int| 0 <= i < j < out@.len() ==> out@[i].key < out@[j].key
            &&& forall|i: int|
                0 <= i < out@.len() ==> lower <= (#[trigger] out@[i]).key <= upper && shown(
                    before,
                    out@[i].key,
                    version,
                ) == Some(out@[i])
            &&& forall|k: Key|
                lower <= k <= upper ==> ((#[trigger] shown(before, k, version)) matches Some(r)
                    ==> out@.contains(r))
        },
{
    let interval = Interval { lower, upper };
    if let CRUDOperationResult::MatchedRecords(out) = result {
        assert forall|i: int| 0 <= i < out@.len() implies lower <= (#[trigger] out@[i]).key
            <= upper && shown(before, out@[i].key, version) == Some(out@[i]) by {
            assert(bplus_tree::seen(before@.records, interval, version, out@[i]));
        }
        assert forall|k: Key| lower <= k <= upper implies ((#[trigger] shown(
            before,
            k,
            version,
        )) matches Some(r) ==> out@.contains(r)) by {
            if let Some(r) = shown(before, k, version) {
                laws::law_point_agrees_with_range(before@, interval, version, out@, k);
            }
        }
    }
}

/// The empty transaction does nothing, visits nothing and answers with an error.
pub proof fn law_empty<const FAN_OUT: usize, const NUM_RECORDS: usize>(
    before: &BPlusTree<FAN_OUT, NUM_RECORDS>,
    after: &BPlusTree<FAN_OUT, NUM_RECORDS>,
    visits: NodeVisits,
    result: CRUDOperationResult,
)
    requires
        before.answered(CRUDOperation::Empty, after, visits, result),
    ensures
        *after == *before,
        visits == 0,
        result is Error,
{
}

/// A transaction that does something visits the pages from the root to a leaf once: a writer, a
/// peek and a point query alike. Range queries do so for each leaf that they come by.
pub proof fn law_visits<const FAN_OUT: usize, const NUM_RECORDS: usize>(
    before: &BPlusTree<FAN_OUT, NUM_RECORDS>,
    operation: CRUDOperation,
    after: &BPlusTree<FAN_OUT, NUM_RECORDS>,
    visits: NodeVisits,
    result: CRUDOperationResult,
)
    requires
        before.wf(),
        before.answered(operation, after, visits, result),
    ensures
        match operation {
            CRUDOperation::Empty => visits == 0,
            CRUDOperation::Range(interval, _) => visits == before.scan_visits(interval),
            _ => visits == before.levels(),
        },
{
    before.law_height();
    if let CRUDOperation::Point(key, _) = operation {
        let interval = Interval { lower: key, upper: key };
        before.law_scan_visits(interval);
        let met = before.fences_met(interval);
        assert(met =~= Set::<int>::empty().insert(before.fence_at(key)));
        let l = before.levels();
        assert(l * 1 == l) by (nonlinear_arith);
    }
}

/// No transaction changes the kind of the version indexes or the strategy, and only the insertion
/// of a key that is not stored can make the tree deeper, by one level at most.
pub proof fn law_make_and_height<const FAN_OUT: usize, const NUM_RECORDS: usize>(
    before: &BPlusTree<FAN_OUT, NUM_RECORDS>,
    operation: CRUDOperation,
    after: &BPlusTree<FAN_OUT, NUM_RECORDS>,
    visits: NodeVisits,
    result: CRUDOperationResult,
)
    requires
        before.answered(operation, after, visits, result),
    ensures
        after.wf(),
        after.kind() == before.kind(),
        after.strategy() == before.strategy(),
        match operation {
            CRUDOperation::Insert(key, _) => {
                &&& before.levels() <= after.levels() <= before.levels() + 1
                &&& before@.records.contains_key(key) ==> after.levels() == before.levels()
            },
            _ => after.levels() == before.levels(),
        },
{
}

/// Queries and peeks are the transactions that only read.
pub proof fn law_readers(operation: CRUDOperation)
    ensures
        operation.reads() <==> match operation {
            CRUDOperation::Point(..) => true,
            CRUDOperation::Range(..) => true,
            CRUDOperation::PeekMin => true,
            CRUDOperation::PeekMax => true,
            CRUDOperation::Empty => false,
            CRUDOperation::Insert(..) => false,
            CRUDOperation::Update(..) => false,
            CRUDOperation::Delete(..) => false,
            CRUDOperation::PopMin => false,
            CRUDOperation::PopMax => false,
        },
{
}

/// A transaction can be run on a tree if it only reads or does nothing, or else if there are two
/// more versions before the last, and it does not insert a key that is stored into a tree whose
/// versions are kept in trees.
pub proof fn law_ready<const FAN_OUT: usize, const NUM_RECORDS: usize>(
    tree: &BPlusTree<FAN_OUT, NUM_RECORDS>,
    operation: CRUDOperation,
)
    requires
        tree.wf(),
    ensures
        operation.reads() || operation is Empty ==> tree.ready(operation),
        tree@.clock + 2 < u64::MAX && !(tree.kind() is BTree) ==> tree.ready(operation),
        tree@.clock + 2 < u64::MAX && !(operation is Insert) ==> tree.ready(operation),
        tree@.clock + 2 < u64::MAX && (operation matches CRUDOperation::Insert(key, _)
            && !tree@.records.contains_key(key)) ==> tree.ready(operation),
{
}

} // verus!
