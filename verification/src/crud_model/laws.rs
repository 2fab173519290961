//! What transactions promise each other.

use vstd::prelude::*;
use crate::crud_model::crud_api::{CRUDDispatcher, NodeVisits};
use crate::crud_model::crud_operation::CRUDOperation;
use crate::crud_model::crud_operation_result::CRUDOperationResult;
use crate::crud_model::dispatch;
use crate::record_model::node_versions;
use crate::record_model::record_point::RecordPoint;
use crate::record_model::v_record_point::VersionIndexType;
use crate::record_model::versioned_entry;
use crate::record_model::versioned_entry::LIVE;
use crate::record_model::{Key, Payload, Version};
use crate::tree::bplus_tree;
use crate::tree::bplus_tree::{BPlusTree, TreeState};
use crate::tree::weaver;
use crate::utils::interval::Interval;
use crate::version_index::index_view;
use crate::version_index::index_view::IndexView;
use crate::version_index::skip_list;
use crate::version_index::skip_list::VersionPoint;
use crate::version_index::v_weaver::KeyRidge;
use crate::version_index::version_index::VersionIndex;

verus! {

/// What a reader of snapshot `version` sees of a key: the version that it reads, and the
/// payload.
pub open spec fn read(state: TreeState, key: Key, version: Version) -> Option<VersionPoint> {
    if state.records.contains_key(key) {
        state.records[key].lookup(version)
    } else {
        None
    }
}

/// A record that was just inserted is not there for the readers of older snapshots.
proof fn lemma_initial_is_new(
    kind: VersionIndexType,
    payload: Payload,
    insert_version: Version,
    version: Version,
)
    requires
        version < insert_version,
    ensures
        VersionIndex::initial(kind, payload, insert_version).lookup(version) is None,
{
    reveal_with_fuel(node_versions::latest_at, 2);
    reveal_with_fuel(versioned_entry::newest_visible, 2);
}

/// A record that was just inserted is there for the readers of later snapshots.
proof fn lemma_initial_is_there(
    kind: VersionIndexType,
    payload: Payload,
    insert_version: Version,
    version: Version,
)
    requires
        !(kind is BTree),
        insert_version <= version < LIVE,
    ensures
        VersionIndex::initial(kind, payload, insert_version).lookup(version) == Some(
            RecordPoint { key: insert_version, payload },
        ),
{
    reveal_with_fuel(node_versions::latest_at, 2);
    reveal_with_fuel(versioned_entry::newest_visible, 2);
    if kind is SkipList || kind is SkipListSynced {
        let view = VersionIndex::initial(kind, payload, insert_version);
        let m = view->Skip_0;
        assert(skip_list::is_last_at(m, insert_version, version));
        let key = choose|key: u64| skip_list::is_last_at(m, key, version);
        assert(skip_list::is_last_at(m, key, version));
        assert(key == insert_version);
    }
}

/// Snapshots last: no insertion, successful or not, changes what any reader of a snapshot that
/// was committed before it sees of any key.
pub proof fn law_insert_keeps_snapshots(
    state: TreeState,
    kind: VersionIndexType,
    key: Key,
    payload: Payload,
    other: Key,
    version: Version,
)
    requires
        bplus_tree::sound(state.records, state.clock, kind),
        state.clock + 1 < LIVE,
        !(kind is BTree) || !state.records.contains_key(key),
        version <= state.clock,
    ensures
        read(dispatch::inserted(state, kind, key, payload), other, version) == read(
            state,
            other,
            version,
        ),
{
    let next = dispatch::next(state);
    if state.records.contains_key(key) {
        index_view::law_snapshot_survives_append(
            state.records[key],
            next,
            payload,
            state.clock,
            version,
        );
    } else {
        lemma_initial_is_new(kind, payload, next, version);
    }
}

/// Snapshots last: no update, successful or not, changes what any reader of a snapshot that
/// was committed before it sees of any key.
pub proof fn law_update_keeps_snapshots(
    state: TreeState,
    kind: VersionIndexType,
    optimistic: bool,
    key: Key,
    payload: Payload,
    other: Key,
    version: Version,
)
    requires
        bplus_tree::sound(state.records, state.clock, kind),
        state.clock + 2 < LIVE,
        version <= state.clock,
    ensures
        read(dispatch::updated(state, optimistic, key, payload), other, version) == read(
            state,
            other,
            version,
        ),
{
    if dispatch::live(state, key) {
        index_view::law_snapshot_survives_append(
            state.records[key],
            dispatch::stored_at(state, optimistic),
            payload,
            state.clock,
            version,
        );
    }
}

/// Snapshots last: no deletion, successful or not, changes what any reader of a snapshot that
/// was committed before it sees of any key.
pub proof fn law_delete_keeps_snapshots(
    state: TreeState,
    kind: VersionIndexType,
    key: Key,
    other: Key,
    version: Version,
)
    requires
        bplus_tree::sound(state.records, state.clock, kind),
        state.clock + 1 < LIVE,
        version <= state.clock,
    ensures
        read(dispatch::deleted(state, key), other, version) == read(state, other, version),
{
    if dispatch::live(state, key) {
        index_view::law_snapshot_survives_delete(
            state.records[key],
            dispatch::next(state),
            state.clock,
            version,
        );
    }
}

/// Every snapshot from a successful insertion on shows the record. Records whose versions are
/// kept in a tree are the exception: these lose the first version.
pub proof fn law_read_after_insert(
    state: TreeState,
    kind: VersionIndexType,
    key: Key,
    payload: Payload,
    version: Version,
)
    requires
        bplus_tree::sound(state.records, state.clock, kind),
        state.clock + 1 < LIVE,
        !(kind is BTree),
        dispatch::insertable(state, key),
        dispatch::next(state) <= version < LIVE,
    ensures
        read(dispatch::inserted(state, kind, key, payload), key, version) == Some(
            RecordPoint { key: dispatch::next(state), payload },
        ),
        dispatch::live(dispatch::inserted(state, kind, key, payload), key),
{
    let next = dispatch::next(state);
    if state.records.contains_key(key) {
        index_view::law_push(state.records[key], next, payload, state.clock);
        index_view::law_read_after_append(
            state.records[key],
            next,
            payload,
            state.clock,
            version,
        );
    } else {
        lemma_initial_is_there(kind, payload, next, version);
        bplus_tree::lemma_initial(kind, payload, next);
    }
}

/// Every snapshot from the version on at which a successful update was stored shows the new
/// payload.
pub proof fn law_read_after_update(
    state: TreeState,
    kind: VersionIndexType,
    optimistic: bool,
    key: Key,
    payload: Payload,
    version: Version,
)
    requires
        bplus_tree::sound(state.records, state.clock, kind),
        state.clock + 2 < LIVE,
        dispatch::live(state, key),
        dispatch::stored_at(state, optimistic) <= version < LIVE,
    ensures
        read(dispatch::updated(state, optimistic, key, payload), key, version) == Some(
            RecordPoint { key: dispatch::stored_at(state, optimistic), payload },
        ),
        dispatch::live(dispatch::updated(state, optimistic, key, payload), key),
{
    let stored = dispatch::stored_at(state, optimistic);
    index_view::law_append(state.records[key], stored, payload, state.clock);
    index_view::law_read_after_append(
        state.records[key],
        stored,
        payload,
        state.clock,
        version,
    );
}

/// No snapshot from a successful deletion on shows the record, and it is gone for writers.
pub proof fn law_read_after_delete(
    state: TreeState,
    kind: VersionIndexType,
    key: Key,
    version: Version,
)
    requires
        bplus_tree::sound(state.records, state.clock, kind),
        state.clock + 1 < LIVE,
        dispatch::live(state, key),
        dispatch::next(state) <= version,
    ensures
        read(dispatch::deleted(state, key), key, version) is None,
        !dispatch::live(dispatch::deleted(state, key), key),
        dispatch::insertable(dispatch::deleted(state, key), key),
{
    index_view::law_delete(state.records[key], dispatch::next(state), state.clock);
    index_view::law_read_after_delete(
        state.records[key],
        dispatch::next(state),
        state.clock,
        version,
    );
}

/// Writers leave a sound state: histories in order, and no version later than the clock.
pub proof fn law_writers_keep_states_sound(
    state: TreeState,
    kind: VersionIndexType,
    optimistic: bool,
    key: Key,
    payload: Payload,
)
    requires
        bplus_tree::sound(state.records, state.clock, kind),
        state.clock + 2 < LIVE,
        kind is BTree ==> !state.records.contains_key(key),
    ensures
        ({
            let i = dispatch::inserted(state, kind, key, payload);
            let u = dispatch::updated(state, optimistic, key, payload);
            let d = dispatch::deleted(state, key);
            &&& bplus_tree::sound(i.records, i.clock, kind)
            &&& bplus_tree::sound(u.records, u.clock, kind)
            &&& bplus_tree::sound(d.records, d.clock, kind)
        }),
{
    let i = dispatch::inserted(state, kind, key, payload);
    let u = dispatch::updated(state, optimistic, key, payload);
    let d = dispatch::deleted(state, key);
    let next = dispatch::next(state);
    let stored = dispatch::stored_at(state, optimistic);
    if state.records.contains_key(key) {
        let h = state.records[key];
        assert(bplus_tree::sound_history(h, kind, state.clock));
        index_view::law_append(h, stored, payload, state.clock);
        index_view::law_delete(h, next, state.clock);
        if !h.live() {
            index_view::law_push(h, next, payload, state.clock);
        }
    } else {
        bplus_tree::lemma_initial(kind, payload, next);
    }
    assert forall|k: Key| #[trigger] i.records.contains_key(k) implies bplus_tree::sound_history(
        i.records[k],
        kind,
        i.clock,
    ) by {
        if k != key || i.records[k] == state.records[k] && state.records.contains_key(k) {
            assert(state.records.contains_key(k));
            index_view::law_timely_later(state.records[k], state.clock, i.clock);
        }
    }
    assert forall|k: Key| #[trigger] u.records.contains_key(k) implies bplus_tree::sound_history(
        u.records[k],
        kind,
        u.clock,
    ) by {
        if k != key || !dispatch::live(state, key) {
            assert(state.records.contains_key(k));
            index_view::law_timely_later(state.records[k], state.clock, u.clock);
        }
    }
    assert forall|k: Key| #[trigger] d.records.contains_key(k) implies bplus_tree::sound_history(
        d.records[k],
        kind,
        d.clock,
    ) by {
        if k != key || !dispatch::live(state, key) {
            assert(state.records.contains_key(k));
            index_view::law_timely_later(state.records[k], state.clock, d.clock);
        }
    }
}

/// A point query of the newest snapshot gives back what was written last: the payload of a
/// successful insertion or update, and nothing after a successful deletion.
pub proof fn law_point_after_write(
    state: TreeState,
    kind: VersionIndexType,
    optimistic: bool,
    key: Key,
    payload: Payload,
)
    requires
        bplus_tree::sound(state.records, state.clock, kind),
        state.clock + 2 < LIVE,
        !(kind is BTree),
    ensures
        dispatch::insertable(state, key) ==> {
            let after = dispatch::inserted(state, kind, key, payload);
            dispatch::point_answer(after, key, after.clock) == Some(
                RecordPoint { key, payload },
            )
        },
        dispatch::live(state, key) ==> {
            let after = dispatch::updated(state, optimistic, key, payload);
            dispatch::point_answer(after, key, after.clock) == Some(
                RecordPoint { key, payload },
            )
        },
        dispatch::live(state, key) ==> {
            let after = dispatch::deleted(state, key);
            dispatch::point_answer(after, key, after.clock) is None
        },
{
    if dispatch::insertable(state, key) {
        law_read_after_insert(state, kind, key, payload, dispatch::next(state));
    }
    if dispatch::live(state, key) {
        law_read_after_update(
            state,
            kind,
            optimistic,
            key,
            payload,
            dispatch::stored_at(state, optimistic),
        );
        law_read_after_delete(state, kind, key, dispatch::next(state));
    }
}

/// A writer changes the history of its own key at most.
pub proof fn law_other_keys_are_untouched(
    state: TreeState,
    kind: VersionIndexType,
    optimistic: bool,
    key: Key,
    payload: Payload,
    other: Key,
)
    requires
        other != key,
    ensures
        ({
            let i = dispatch::inserted(state, kind, key, payload);
            let u = dispatch::updated(state, optimistic, key, payload);
            let d = dispatch::deleted(state, key);
            &&& i.records.contains_key(other) == state.records.contains_key(other)
            &&& u.records.contains_key(other) == state.records.contains_key(other)
            &&& d.records.contains_key(other) == state.records.contains_key(other)
            &&& state.records.contains_key(other) ==> {
                &&& i.records[other] == state.records[other]
                &&& u.records[other] == state.records[other]
                &&& d.records[other] == state.records[other]
            }
        }),
{
}

/// A writer that fails has used up its versions and has changed no record.
pub proof fn law_failed_writers_change_no_record(
    state: TreeState,
    kind: VersionIndexType,
    optimistic: bool,
    key: Key,
    payload: Payload,
)
    ensures
        !dispatch::insertable(state, key) ==> dispatch::inserted(
            state,
            kind,
            key,
            payload,
        ).records == state.records,
        !dispatch::live(state, key) ==> dispatch::updated(
            state,
            optimistic,
            key,
            payload,
        ).records == state.records,
        !dispatch::live(state, key) ==> dispatch::deleted(state, key).records == state.records,
{
}

/// Versions ascend: each writer moves the clock on, so that no two of them share a version.
pub proof fn law_clock_ascends(
    state: TreeState,
    kind: VersionIndexType,
    optimistic: bool,
    key: Key,
    payload: Payload,
)
    requires
        state.clock + 2 < LIVE,
    ensures
        dispatch::inserted(state, kind, key, payload).clock == state.clock + 1,
        dispatch::deleted(state, key).clock == state.clock + 1,
        dispatch::updated(state, optimistic, key, payload).clock == (if optimistic {
            state.clock + 1
        } else {
            state.clock + 2
        }),
{
}

/// A point query and a scan of a wider interval agree on what a snapshot shows of a key.
pub proof fn law_point_agrees_with_range(
    state: TreeState,
    interval: Interval,
    version: Version,
    records: Seq<RecordPoint<Key, Payload>>,
    key: Key,
)
    requires
        bplus_tree::scanned(state.records, interval, version, records),
        interval.has(key),
    ensures
        dispatch::point_answer(state, key, version) matches Some(r) ==> records.contains(r),
        dispatch::point_answer(state, key, version) is None ==> forall|i: int|
            0 <= i < records.len() ==> (#[trigger] records[i]).key != key,
{
    if let Some(r) = dispatch::point_answer(state, key, version) {
        let i = choose|i: int| 0 <= i < records.len() && (#[trigger] records[i]).key == key;
        assert(bplus_tree::seen(state.records, interval, version, records[i]));
        assert(records[i] == r);
    } else {
        assert forall|i: int| 0 <= i < records.len() implies (#[trigger] records[i]).key
            != key by {
            assert(bplus_tree::seen(state.records, interval, version, records[i]));
        }
    }
}

/// A link between keys that was once set stays, whatever transaction runs.
pub proof fn law_links_survive<const FAN_OUT: usize, const NUM_RECORDS: usize>(
    before: &BPlusTree<FAN_OUT, NUM_RECORDS>,
    operation: CRUDOperation,
    after: &BPlusTree<FAN_OUT, NUM_RECORDS>,
    visits: NodeVisits,
    result: CRUDOperationResult,
    from: KeyRidge<Key>,
    to: KeyRidge<Key>,
)
    requires
        before.answered(operation, after, visits, result),
        weaver::leads(before.records(), from),
        weaver::link_at(before.records(), from) == Some(to),
    ensures
        weaver::leads(after.records(), from),
        weaver::link_at(after.records(), from) == Some(to),
{
    assert(weaver::kept_at(before.records(), after.records(), from.key));
    let b = weaver::own_nodes(before.records(), from.key);
    let a = weaver::own_nodes(after.records(), from.key);
    assert(a.take(b.len() as int)[from.node as int] == b[from.node as int]);
}

} // verus!
