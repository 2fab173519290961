//! The tree as a key-value store.

use vstd::prelude::*;
use crate::crud_model::crud_api::CRUDDispatcher;
use crate::crud_model::crud_operation::CRUDOperation;
use crate::crud_model::crud_operation_result::CRUDOperationResult;
use crate::crud_model::dispatch;
use crate::crud_model::observations;
use crate::locking::locking_strategy::{Attempts, LockingStrategy};
use crate::record_model::record_point::RecordPoint;
use crate::record_model::v_record_point::VersionIndexType;
use crate::record_model::versioned_entry::LIVE;
use crate::record_model::{Key, Payload};
use crate::tree::bplus_tree;
use crate::tree::bplus_tree::TreeState;
use crate::utils::interval::Interval;
use crate::workload::dispatcher::{new_INDEX, INDEX};

verus! {

/// The numbers of the strategies.
pub const ORWC: i32 = 0;

pub const OLC: i32 = 1;

pub const LHL: i32 = 2;

pub const MONO: i32 = 3;

pub const HL: i32 = 4;

pub const LC: i32 = 5;

/// The kind of the version indexes.
pub const V_INDEX_KIND: VersionIndexType = VersionIndexType::VANILLA;

/// How often the strategy that is taken for unknown numbers repeats an attempt.
pub const DEFAULT_ATTEMPTS: Attempts = 0;

/// The strategy that a number stands for.
pub open spec fn strategy_of(p: i32, e1: Attempts, e2: Attempts) -> LockingStrategy {
    if p == ORWC {
        LockingStrategy::ORWC { attempts: e1 }
    } else if p == OLC {
        LockingStrategy::OLC
    } else if p == LHL {
        LockingStrategy::LightweightHybridLock { read_attempts: e1, write_attempts: e2 }
    } else if p == MONO {
        LockingStrategy::MonoWriter
    } else if p == HL {
        LockingStrategy::HybridLocking { read_attempts: e1 }
    } else if p == LC {
        LockingStrategy::LockCoupling
    } else {
        LockingStrategy::ORWC { attempts: DEFAULT_ATTEMPTS }
    }
}

/// A store.
pub struct BTreeApiExport {
    index: INDEX,
}

/// A store without records, whose strategy a number stands for.
pub fn init_tree(p: i32, e1: Attempts, e2: Attempts) -> (store: BTreeApiExport)
    ensures
        store.wf(),
        store@ == (TreeState { records: Map::empty(), clock: 1 }),
        store.strategy() == strategy_of(p, e1, e2),
{
    let strategy = if p == ORWC {
        LockingStrategy::ORWC { attempts: e1 }
    } else if p == OLC {
        LockingStrategy::OLC
    } else if p == LHL {
        LockingStrategy::LightweightHybridLock { read_attempts: e1, write_attempts: e2 }
    } else if p == MONO {
        LockingStrategy::MonoWriter
    } else if p == HL {
        LockingStrategy::HybridLocking { read_attempts: e1 }
    } else if p == LC {
        LockingStrategy::LockCoupling
    } else {
        LockingStrategy::ORWC { attempts: DEFAULT_ATTEMPTS }
    };
    BTreeApiExport { index: new_INDEX(strategy, V_INDEX_KIND) }
}

/// A size, read as the number without a sign that has the same bits.
pub open spec fn unsigned(size: i32) -> int {
    if size >= 0 {
        size as int
    } else {
        size + 0x1_0000_0000_0000_0000
    }
}

/// The last key of a scan.
pub open spec fn scan_end(key: Key, size: i32) -> int {
    key + unsigned(size) - 1
}

/// The payload that the newest snapshot shows of a key.
pub open spec fn value_of(state: TreeState, key: Key) -> Option<Payload> {
    match dispatch::point_answer(state, key, state.clock) {
        Some(record) => Some(record.payload),
        None => None,
    }
}

/// The values of the second state are those of the first, but for one key.
pub open spec fn assigned(
    before: TreeState,
    after: TreeState,
    key: Key,
    value: Option<Payload>,
) -> bool {
    forall|k: Key| #[trigger]
        value_of(after, k) == if k == key {
            value
        } else {
            value_of(before, k)
        }
}

/// The numbers from zero to five stand for the six strategies, with the attempts that are handed
/// over as far as the strategy has any, and every other number for one that never repeats.
pub proof fn law_strategy_numbers(p: i32, e1: Attempts, e2: Attempts)
    ensures
        p == 0 ==> strategy_of(p, e1, e2) == (LockingStrategy::ORWC { attempts: e1 }),
        p == 1 ==> strategy_of(p, e1, e2) == LockingStrategy::OLC,
        p == 2 ==> strategy_of(p, e1, e2) == (LockingStrategy::LightweightHybridLock {
            read_attempts: e1,
            write_attempts: e2,
        }),
        p == 3 ==> strategy_of(p, e1, e2) == LockingStrategy::MonoWriter,
        p == 4 ==> strategy_of(p, e1, e2) == (LockingStrategy::HybridLocking {
            read_attempts: e1,
        }),
        p == 5 ==> strategy_of(p, e1, e2) == LockingStrategy::LockCoupling,
        p < 0 || p > 5 ==> strategy_of(p, e1, e2) == (LockingStrategy::ORWC { attempts: 0 }),
{
}

/// A scan of some keys reaches each of them and no other: those from the first one up to, and
/// without, the sum of the key and the size. A negative size stands for the number without a
/// sign that has the same bits.
pub proof fn law_scan_reaches_as_many_keys_as_asked_for(key: Key, size: i32, k: Key)
    ensures
        size >= 0 && 1 <= key + size <= Key::MAX ==> (Interval {
            lower: key,
            upper: scan_end(key, size) as Key,
        }.has(k) <==> key <= k < key + size),
        size < 0 && key + size < 0 ==> (Interval {
            lower: key,
            upper: scan_end(key, size) as Key,
        }.has(k) <==> key <= k < key + size + 0x1_0000_0000_0000_0000),
{
}

/// A scan lists a record if and only if its key is among the keys that were asked for and the
/// newest snapshot shows it, and lists each of them once, in ascending order of the keys.
pub proof fn law_scan(
    state: TreeState,
    key: Key,
    size: i32,
    records: Seq<RecordPoint<Key, Payload>>,
)
    requires
        size >= 0,
        1 <= key + size <= Key::MAX,
        bplus_tree::scanned(
            state.records,
            Interval { lower: key, upper: scan_end(key, size) as Key },
            state.clock,
            records,
        ),
    ensures
        forall|r: RecordPoint<Key, Payload>| #[trigger]
            records.contains(r) <==> key <= r.key < key + size && value_of(state, r.key) == Some(
                r.payload,
            ),
        forall|i: int, j: int| 0 <= i < j < records.len() ==> records[i].key < records[j].key,
        records.len() <= size,
{
    let interval = Interval { lower: key, upper: scan_end(key, size) as Key };
    assert forall|r: RecordPoint<Key, Payload>| #[trigger] records.contains(r) <==> key <= r.key
        < key + size && value_of(state, r.key) == Some(r.payload) by {
        law_scan_reaches_as_many_keys_as_asked_for(key, size, r.key);
        lemma_listed(state, interval, records, r);
    }
    assert forall|i: int| 0 <= i < records.len() implies key <= (#[trigger] records[i]).key < key
        + size by {
        assert(records.contains(records[i]));
    }
    lemma_ascending_within(records, key as int, key + size);
}

/// A scan lists a record if and only if its key is in the interval and the newest snapshot shows
/// it.
proof fn lemma_listed(
    state: TreeState,
    interval: Interval,
    records: Seq<RecordPoint<Key, Payload>>,
    r: RecordPoint<Key, Payload>,
)
    requires
        bplus_tree::scanned(state.records, interval, state.clock, records),
    ensures
        records.contains(r) <==> interval.has(r.key) && value_of(state, r.key) == Some(r.payload),
{
    if records.contains(r) {
        let i = choose|i: int| 0 <= i < records.len() && #[trigger] records[i] == r;
        assert(bplus_tree::seen(state.records, interval, state.clock, records[i]));
    }
    if interval.has(r.key) && value_of(state, r.key) == Some(r.payload) {
        let i = choose|i: int| 0 <= i < records.len() && (#[trigger] records[i]).key == r.key;
        assert(bplus_tree::seen(state.records, interval, state.clock, records[i]));
        assert(records[i] == r);
    }
}

/// The values of the keys that a writer leaves alone stay.
proof fn lemma_values(before: &INDEX, after: &INDEX, key: Key)
    requires
        before.wf(),
        after.wf(),
        before@.clock <= after@.clock,
        observations::same_elsewhere(before, after, key),
    ensures
        forall|k: Key|
            k != key ==> #[trigger] value_of(after@, k) == value_of(before@, k),
        observations::shown(before, key, after@.clock) == observations::shown(
            before,
            key,
            before@.clock,
        ),
{
    after.law_state();
    observations::law_later_snapshots_show_the_present(before, key, after@.clock);
    assert forall|k: Key| k != key implies #[trigger] value_of(after@, k) == value_of(
        before@,
        k,
    ) by {
        observations::law_later_snapshots_show_the_present(before, k, after@.clock);
        assert(observations::shown(after, k, after@.clock) == observations::shown(
            before,
            k,
            after@.clock,
        ));
    }
}

/// Ascending keys of an interval are no more than the interval is wide.
proof fn lemma_ascending_within(records: Seq<RecordPoint<Key, Payload>>, from: int, until: int)
    requires
        from <= until,
        forall|i: int, j: int| 0 <= i < j < records.len() ==> records[i].key < records[j].key,
        forall|i: int| 0 <= i < records.len() ==> from <= (#[trigger] records[i]).key < until,
    ensures
        records.len() <= until - from,
    decreases records.len(),
{
    if records.len() > 0 {
        let last = records.last().key as int;
        let front = records.drop_last();
        assert forall|i: int| 0 <= i < front.len() implies from <= (#[trigger] front[i]).key
            < last by {
            assert(front[i] == records[i]);
        }
        assert(from <= records[records.len() - 1].key < until);
        lemma_ascending_within(front, from, last);
    }
}

impl BTreeApiExport {
    /// The records and the clock.
    pub closed spec fn view(&self) -> TreeState {
        self.index@
    }

    /// The tree is sound, and its versions are lists.
    pub closed spec fn wf(&self) -> bool {
        self.index.wf() && self.index.kind() is VANILLA
    }

    /// How readers and writers are kept apart.
    pub closed spec fn strategy(&self) -> LockingStrategy {
        self.index.strategy()
    }

    /// The payload of a key.
    pub fn find(&self, key: Key) -> (value: Option<Payload>)
        requires
            self.wf(),
        ensures
            value == (match dispatch::point_answer(self@, key, self@.clock) {
                Some(record) => Some(record.payload),
                None => None,
            }),
            value == value_of(self@, key),
    {
        let version = self.index.committed_version();
        match self.index.dispatch_read(CRUDOperation::Point(key, version)) {
            (_, CRUDOperationResult::MatchedRecord(Some(result))) => Some(result.payload),
            _ => None,
        }
    }

    /// Whether there are versions left for writers.
    pub fn has_room(&self) -> (r: bool)
        ensures
            r == (self@.clock + 2 < LIVE),
    {
        self.index.committed_version() < LIVE - 2
    }

    /// Inserts a key, unless it is there. Either way is taken for a success.
    pub fn insert(&mut self, key: Key, value: Payload) -> (done: bool)
        requires
            old(self).wf(),
            old(self)@.clock + 2 < LIVE,
        ensures
            final(self).wf(),
            final(self)@ == dispatch::inserted(
                old(self)@,
                V_INDEX_KIND,
                key,
                value,
            ),
            final(self).strategy() == old(self).strategy(),
            assigned(
                old(self)@,
                final(self)@,
                key,
                match value_of(old(self)@, key) {
                    Some(there) => Some(there),
                    None => Some(value),
                },
            ),
            done,
    {
        let ghost before = self.index;
        let (visits, answer) = self.index.dispatch(CRUDOperation::Insert(key, value));
        proof {
            observations::law_insertion(&before, key, value, &self.index, visits, answer);
            lemma_values(&before, &self.index, key);
            if value_of(before@, key) is None {
                assert(observations::shown(&self.index, key, self.index@.clock) == Some(
                    RecordPoint { key, payload: value },
                ));
            } else {
                assert(observations::shown(&self.index, key, self.index@.clock)
                    == observations::shown(&before, key, self.index@.clock));
            }
        }
        true
    }

    /// Gives a key another payload.
    pub fn update(&mut self, key: Key, value: Payload) -> (done: bool)
        requires
            old(self).wf(),
            old(self)@.clock + 2 < LIVE,
        ensures
            final(self).wf(),
            final(self)@ == dispatch::updated(
                old(self)@,
                old(self).strategy().optimistic(),
                key,
                value,
            ),
            final(self).strategy() == old(self).strategy(),
            done == dispatch::live(old(self)@, key),
            done == (value_of(old(self)@, key) is Some),
            assigned(
                old(self)@,
                final(self)@,
                key,
                match value_of(old(self)@, key) {
                    Some(_) => Some(value),
                    None => None,
                },
            ),
    {
        let ghost before = self.index;
        let (visits, answer) = self.index.dispatch(CRUDOperation::Update(key, value));
        proof {
            observations::law_update(&before, key, value, &self.index, visits, answer);
            lemma_values(&before, &self.index, key);
            if value_of(before@, key) is Some {
                assert(observations::shown(&self.index, key, self.index@.clock) == Some(
                    RecordPoint { key, payload: value },
                ));
            } else {
                assert(observations::shown(&self.index, key, self.index@.clock)
                    == observations::shown(&before, key, self.index@.clock));
            }
        }
        match answer {
            CRUDOperationResult::Updated(..) => true,
            _ => false,
        }
    }

    /// Deletes a key.
    pub fn remove(&mut self, key: Key) -> (done: bool)
        requires
            old(self).wf(),
            old(self)@.clock + 2 < LIVE,
        ensures
            final(self).wf(),
            final(self)@ == dispatch::deleted(old(self)@, key),
            final(self).strategy() == old(self).strategy(),
            done == dispatch::live(old(self)@, key),
            done == (value_of(old(self)@, key) is Some),
            assigned(old(self)@, final(self)@, key, None),
    {
        let ghost before = self.index;
        let (visits, answer) = self.index.dispatch(CRUDOperation::Delete(key));
        proof {
            observations::law_deletion(&before, key, &self.index, visits, answer);
            lemma_values(&before, &self.index, key);
            if value_of(before@, key) is Some {
                assert(observations::shown(&self.index, key, self.index@.clock) is None);
            } else {
                assert(observations::shown(&self.index, key, self.index@.clock)
                    == observations::shown(&before, key, self.index@.clock));
            }
        }
        match answer {
            CRUDOperationResult::Deleted(..) => true,
            _ => false,
        }
    }

    /// The records of as many keys as asked for, from a key on.
    pub fn scan(&self, key: Key, scan_sz: i32) -> (records: Vec<RecordPoint<Key, Payload>>)
        requires
            self.wf(),
            key + unsigned(scan_sz) <= Key::MAX,
            scan_end(key, scan_sz) >= 0,
        ensures
            bplus_tree::scanned(
                self@.records,
                Interval { lower: key, upper: scan_end(key, scan_sz) as Key },
                self@.clock,
                records@,
            ),
            forall|r: RecordPoint<Key, Payload>| #[trigger]
                records@.contains(r) <==> key <= r.key < key + (if scan_sz >= 0 {
                    scan_sz as int
                } else {
                    scan_sz + 0x1_0000_0000_0000_0000
                }) && value_of(self@, r.key) == Some(r.payload),
            forall|i: int, j: int|
                0 <= i < j < records@.len() ==> records@[i].key < records@[j].key,
    {
        let size: u64 = if scan_sz >= 0 {
            scan_sz as u64
        } else {
            u64::MAX - ((-(scan_sz as i64)) as u64) + 1
        };
        let key_end = key + size - 1;
        let version = self.index.committed_version();
        match self.index.dispatch_read(CRUDOperation::Range(Interval::new(key, key_end), version)) {
            (_, CRUDOperationResult::MatchedRecords(records)) => {
                proof {
                    let state = self@;
                    let interval = Interval { lower: key, upper: key_end };
                    assert forall|r: RecordPoint<Key, Payload>| #[trigger]
                        records@.contains(r) <==> key <= r.key <= key_end && value_of(state, r.key)
                        == Some(r.payload) by {
                        lemma_listed(state, interval, records@, r);
                    }
                }
                records
            },
            _ => Vec::new(),
        }
    }
}

/// A new store finds nothing, whatever its strategy.
pub proof fn law_new_stores_are_empty(
    p: i32,
    e1: Attempts,
    e2: Attempts,
    store: BTreeApiExport,
    key: Key,
)
    requires
        call_ensures(init_tree, (p, e1, e2), store),
    ensures
        store@.clock == 1,
        value_of(store@, key) is None,
        store.strategy() is OLC <==> p == 1,
        store.strategy() is LightweightHybridLock <==> p == 2,
        store.strategy() is MonoWriter <==> p == 3,
        store.strategy() is HybridLocking <==> p == 4,
        store.strategy() is LockCoupling <==> p == 5,
{
}

/// A scan lists the records that are found key by key, and no others.
pub proof fn law_scans_list_what_is_found(
    store: &BTreeApiExport,
    key: Key,
    size: i32,
    records: Vec<RecordPoint<Key, Payload>>,
    k: Key,
    found: Option<Payload>,
)
    requires
        call_ensures(BTreeApiExport::scan, (store, key, size), records),
        call_ensures(BTreeApiExport::find, (store, k), found),
        0 <= size,
        key + size <= u64::MAX,
    ensures
        match found {
            Some(payload) => records@.contains(RecordPoint { key: k, payload }) <==> key <= k < key
                + size,
            None => forall|i: int| 0 <= i < records@.len() ==> (#[trigger] records@[i]).key != k,
        },
{
    if found is None {
        assert forall|i: int| 0 <= i < records@.len() implies (#[trigger] records@[i]).key != k by {
            assert(records@.contains(records@[i]));
        }
    }
}

} // verus!
