//! How the tree runs transactions.

use vstd::prelude::*;
use crate::crud_model::crud_api::{CRUDDispatcher, NodeVisits};
use crate::crud_model::crud_operation::CRUDOperation;
use crate::crud_model::crud_operation_result::CRUDOperationResult;
use crate::record_model::record_point::RecordPoint;
use crate::record_model::v_record_point::VersionIndexType;
use crate::record_model::versioned_entry::LIVE;
use crate::record_model::{Key, Payload, Version};
use crate::tree::bplus_tree;
use crate::tree::bplus_tree::{BPlusTree, TreeState};
use crate::tree::weaver;
use crate::utils::interval::Interval;
use crate::version_index::index_view::IndexView;
use crate::version_index::version_index::VersionIndex;

verus! {

/// The next version.
pub open spec fn next(state: TreeState) -> Version {
    (state.clock + 1) as Version
}

/// An insertion takes effect: there is no record, or it was deleted.
pub open spec fn insertable(state: TreeState, key: Key) -> bool {
    state.records.contains_key(key) ==> !state.records[key].live()
}

/// There is a record that was not deleted.
pub open spec fn live(state: TreeState, key: Key) -> bool {
    state.records.contains_key(key) && state.records[key].live()
}

/// The state after an insertion.
pub open spec fn inserted(
    state: TreeState,
    kind: VersionIndexType,
    key: Key,
    payload: Payload,
) -> TreeState {
    let version = next(state);
    TreeState {
        records: if !state.records.contains_key(key) {
            state.records.insert(key, VersionIndex::initial(kind, payload, version))
        } else if !state.records[key].live() {
            state.records.insert(key, state.records[key].pushed(version, payload))
        } else {
            state.records
        },
        clock: version,
    }
}

/// The version at which an update is stored: the one that the writer drew, or a second one that
/// it draws where readers are not optimistic.
pub open spec fn stored_at(state: TreeState, optimistic: bool) -> Version {
    if optimistic {
        next(state)
    } else {
        (state.clock + 2) as Version
    }
}

/// The state after an update.
pub open spec fn updated(
    state: TreeState,
    optimistic: bool,
    key: Key,
    payload: Payload,
) -> TreeState {
    let version = stored_at(state, optimistic);
    TreeState {
        records: if live(state, key) {
            state.records.insert(key, state.records[key].appended(version, payload))
        } else {
            state.records
        },
        clock: version,
    }
}

/// The state after a deletion.
pub open spec fn deleted(state: TreeState, key: Key) -> TreeState {
    let version = next(state);
    TreeState {
        records: if live(state, key) {
            state.records.insert(key, state.records[key].deleted(version))
        } else {
            state.records
        },
        clock: version,
    }
}

/// What a deletion answers.
pub open spec fn deletion_answer(state: TreeState, key: Key) -> CRUDOperationResult {
    if live(state, key) {
        CRUDOperationResult::Deleted(key, state.records[key].newest(), next(state))
    } else {
        CRUDOperationResult::Error
    }
}

/// What a point query answers: what the snapshot shows of the record, if there is one and it is
/// visible.
pub open spec fn point_answer(state: TreeState, key: Key, version: Version) -> Option<
    RecordPoint<Key, Payload>,
> {
    if !state.records.contains_key(key) {
        None
    } else {
        match state.records[key].lookup(version) {
            Some(found) => Some(RecordPoint { key, payload: found.payload }),
            None => None,
        }
    }
}

/// What is told of the record at one end of the tree.
pub open spec fn peek_answer(state: TreeState, key: Key) -> Option<RecordPoint<Key, Payload>> {
    if live(state, key) {
        Some(RecordPoint { key, payload: state.records[key].newest() })
    } else {
        None
    }
}

impl<const FAN_OUT: usize, const NUM_RECORDS: usize> BPlusTree<FAN_OUT, NUM_RECORDS> {
    /// The tree is of the same make.
    pub open spec fn like(&self, other: &Self) -> bool {
        &&& self.kind() == other.kind()
        &&& self.strategy() == other.strategy()
    }

    /// Only an insertion of a new key can make the tree deeper, and by one level.
    pub open spec fn deepened(&self, operation: CRUDOperation, after: &Self) -> bool {
        &&& self.levels() <= after.levels() <= self.levels() + 1
        &&& after.levels() == self.levels() || (operation matches CRUDOperation::Insert(key, _)
            && !self@.records.contains_key(key))
    }

    /// A reading transaction leaves the tree alone: the records, the links between keys, the
    /// pages and the clock.
    pub open spec fn untouched(&self, after: &Self) -> bool {
        *after == *self
    }
}

impl<const FAN_OUT: usize, const NUM_RECORDS: usize> CRUDDispatcher for BPlusTree<
    FAN_OUT,
    NUM_RECORDS,
> {
    /// There are versions left for writers, and no record is inserted anew whose versions are
    /// kept in a tree, as these lose the first version.
    open spec fn ready(&self, operation: CRUDOperation) -> bool {
        &&& self.wf()
        &&& !operation.reads() && !(operation is Empty) ==> self@.clock + 2 < LIVE
        &&& self.kind() is BTree ==> (operation matches CRUDOperation::Insert(key, payload)
            ==> !self@.records.contains_key(key))
    }

    open spec fn answered(
        &self,
        operation: CRUDOperation,
        after: &Self,
        visits: NodeVisits,
        result: CRUDOperationResult,
    ) -> bool {
        &&& after.wf()
        &&& after.like(self)
        &&& weaver::links_kept(self.records(), after.records())
        &&& self.deepened(operation, after)
        &&& match operation {
            CRUDOperation::Empty => {
                &&& self.untouched(after)
                &&& visits == 0
                &&& result is Error
            },
            CRUDOperation::Insert(key, payload) => {
                &&& after@ == inserted(self@, self.kind(), key, payload)
                &&& visits == self.levels()
                &&& result == if insertable(self@, key) {
                    CRUDOperationResult::Inserted(key, next(self@))
                } else {
                    CRUDOperationResult::Error
                }
            },
            CRUDOperation::Update(key, payload) => {
                &&& after@ == updated(self@, self.strategy().optimistic(), key, payload)
                &&& visits == self.levels()
                &&& result == if live(self@, key) {
                    CRUDOperationResult::Updated(key, self@.records[key].newest(), next(self@))
                } else {
                    CRUDOperationResult::Error
                }
            },
            CRUDOperation::Delete(key) => {
                &&& after@ == deleted(self@, key)
                &&& visits == self.levels()
                &&& result == deletion_answer(self@, key)
            },
            CRUDOperation::Point(key, version) => {
                &&& self.untouched(after)
                &&& visits == if self.strategy().optimistic() {
                    self.scan_visits(Interval { lower: key, upper: key })
                } else {
                    self.levels()
                }
                &&& result == CRUDOperationResult::MatchedRecord(
                    point_answer(self@, key, version),
                )
            },
            CRUDOperation::Range(interval, version) => {
                &&& self.untouched(after)
                &&& visits == self.scan_visits(interval)
                &&& result matches CRUDOperationResult::MatchedRecords(out)
                &&& bplus_tree::scanned(self@.records, interval, version, out@)
            },
            CRUDOperation::PeekMin => {
                &&& self.untouched(after)
                &&& visits == self.levels()
                &&& if self@.records == Map::<Key, IndexView>::empty() {
                    result == CRUDOperationResult::MatchedRecord(None)
                } else {
                    exists|key: Key| #[trigger]
                        bplus_tree::is_first(self@.records, key) && result
                            == CRUDOperationResult::MatchedRecord(peek_answer(self@, key))
                }
            },
            CRUDOperation::PeekMax => {
                &&& self.untouched(after)
                &&& visits == self.levels()
                &&& if self@.records == Map::<Key, IndexView>::empty() {
                    result == CRUDOperationResult::MatchedRecord(None)
                } else {
                    exists|key: Key| #[trigger]
                        bplus_tree::is_last(self@.records, key) && result
                            == CRUDOperationResult::MatchedRecord(peek_answer(self@, key))
                }
            },
            CRUDOperation::PopMin => {
                &&& visits == self.levels()
                &&& if self@.records == Map::<Key, IndexView>::empty() {
                    self.untouched(after) && result is Error
                } else {
                    exists|key: Key| #[trigger]
                        bplus_tree::is_first(self@.records, key) && after@ == deleted(self@, key)
                            && result == deletion_answer(self@, key)
                }
            },
            CRUDOperation::PopMax => {
                &&& visits == self.levels()
                &&& if self@.records == Map::<Key, IndexView>::empty() {
                    self.untouched(after) && result is Error
                } else {
                    exists|key: Key| #[trigger]
                        bplus_tree::is_last(self@.records, key) && after@ == deleted(self@, key)
                            && result == deletion_answer(self@, key)
                }
            },
        }
    }

    fn dispatch(&mut self, operation: CRUDOperation) -> (answer: (
        NodeVisits,
        CRUDOperationResult,
    )) {
        let visits = self.height();
        proof {
            weaver::lemma_links_same(self.records());
        }
        match operation {
            CRUDOperation::Delete(key) => (visits, self.delete_key(key)),
            CRUDOperation::Insert(key, payload) => (visits, self.push_record_point(key, payload)),
            CRUDOperation::Update(key, payload) => {
                let olc = self.locking_strategy().is_optimistic();
                (visits, self.update_record_point(key, payload, olc))
            },
            CRUDOperation::PopMin => {
                let first = match self.first_record() {
                    Some(record) => Some(record.key),
                    None => None,
                };
                match first {
                    Some(key) => (visits, self.delete_key(key)),
                    None => (visits, CRUDOperationResult::Error),
                }
            },
            CRUDOperation::PopMax => {
                let last = match self.last_record() {
                    Some(record) => Some(record.key),
                    None => None,
                };
                match last {
                    Some(key) => (visits, self.delete_key(key)),
                    None => (visits, CRUDOperationResult::Error),
                }
            },
            CRUDOperation::Empty => (0, CRUDOperationResult::Error),
            _ => self.dispatch_read(operation),
        }
    }
}

impl<const FAN_OUT: usize, const NUM_RECORDS: usize> BPlusTree<FAN_OUT, NUM_RECORDS> {
    /// Whether a transaction can be run.
    pub fn accepts(&self, operation: &CRUDOperation) -> (r: bool)
        requires
            self.wf(),
        ensures
            r == self.ready(*operation),
    {
        if operation.is_read() {
            return true;
        }
        if let CRUDOperation::Empty = operation {
            return true;
        }
        if self.committed_version() >= LIVE - 2 {
            return false;
        }
        match (self.version_index_type(), operation) {
            (VersionIndexType::BTree, CRUDOperation::Insert(key, _)) => self.find_record(
                *key,
            ).is_none(),
            _ => true,
        }
    }

    /// Runs a reading transaction, which needs the tree for itself no more than others.
    pub fn dispatch_read(&self, operation: CRUDOperation) -> (answer: (
        NodeVisits,
        CRUDOperationResult,
    ))
        requires
            self.wf(),
            operation.reads(),
        ensures
            self.answered(operation, self, answer.0, answer.1),
    {
        let visits = self.height();
        let olc = self.locking_strategy().is_optimistic();
        proof {
            weaver::lemma_links_same(self.records());
        }
        match operation {
            CRUDOperation::Point(key, version) => if olc {
                let interval = Interval::new(key, key);
                let (node_visits, mut records) = self.scan(interval, version);
                proof {
                    self.lemma_point_by_scan(key, version, records@);
                }
                (node_visits, CRUDOperationResult::MatchedRecord(records.pop()))
            } else {
                let record = match self.find_record(key) {
                    Some(record) => match record.version_index.find(version) {
                        Some(found) => Some(RecordPoint::new(key, found.payload)),
                        None => None,
                    },
                    None => None,
                };
                (visits, CRUDOperationResult::MatchedRecord(record))
            },
            CRUDOperation::Range(interval, version) => {
                let (node_visits, records) = self.scan(interval, version);
                (node_visits, CRUDOperationResult::MatchedRecords(records))
            },
            CRUDOperation::PeekMin => {
                let record = match self.first_record() {
                    Some(record) => if record.version_index.is_live() {
                        Some(RecordPoint::new(record.key, record.version_index.newest_payload()))
                    } else {
                        None
                    },
                    None => None,
                };
                (visits, CRUDOperationResult::MatchedRecord(record))
            },
            CRUDOperation::PeekMax => {
                let record = match self.last_record() {
                    Some(record) => if record.version_index.is_live() {
                        Some(RecordPoint::new(record.key, record.version_index.newest_payload()))
                    } else {
                        None
                    },
                    None => None,
                };
                (visits, CRUDOperationResult::MatchedRecord(record))
            },
            _ => (0, CRUDOperationResult::Error),
        }
    }
}

impl<const FAN_OUT: usize, const NUM_RECORDS: usize> BPlusTree<FAN_OUT, NUM_RECORDS> {
    /// Inserts a record at the next version, unless there is one that was not deleted.
    fn push_record_point(&mut self, key: Key, payload: Payload) -> (result: CRUDOperationResult)
        requires
            old(self).wf(),
            old(self)@.clock + 2 < LIVE,
            old(self).kind() is BTree ==> !old(self)@.records.contains_key(key),
        ensures
            final(self).wf(),
            final(self).like(old(self)),
            final(self)@ == inserted(old(self)@, old(self).kind(), key, payload),
            weaver::links_kept(old(self).records(), final(self).records()),
            old(self).deepened(CRUDOperation::Insert(key, payload), final(self)),
            result == (if insertable(old(self)@, key) {
                CRUDOperationResult::Inserted(key, next(old(self)@))
            } else {
                CRUDOperationResult::Error
            }),
    {
        let found = match self.find_record(key) {
            Some(record) => Some(record.version_index.is_live()),
            None => None,
        };
        proof {
            self.law_state();
            weaver::lemma_links_same(self.records());
        }
        let version = self.next_version();
        match found {
            None => {
                self.put_record(key, payload);
                CRUDOperationResult::Inserted(key, version)
            },
            Some(false) => {
                self.revive_record(key, payload, Ghost(old(self)@.clock));
                CRUDOperationResult::Inserted(key, version)
            },
            Some(true) => CRUDOperationResult::default(),
        }
    }

    /// Gives a record that was not deleted another payload.
    fn update_record_point(&mut self, key: Key, payload: Payload, olc: bool) -> (result:
        CRUDOperationResult)
        requires
            old(self).wf(),
            old(self)@.clock + 2 < LIVE,
        ensures
            final(self).wf(),
            final(self).like(old(self)),
            final(self)@ == updated(old(self)@, olc, key, payload),
            weaver::links_kept(old(self).records(), final(self).records()),
            final(self).levels() == old(self).levels(),
            result == (if live(old(self)@, key) {
                CRUDOperationResult::Updated(
                    key,
                    old(self)@.records[key].newest(),
                    next(old(self)@),
                )
            } else {
                CRUDOperationResult::Error
            }),
    {
        let found = match self.find_record(key) {
            Some(record) => record.version_index.is_live(),
            None => false,
        };
        proof {
            self.law_state();
            weaver::lemma_links_same(self.records());
        }
        let update_version = self.next_version();
        if !olc {
            let _ = self.next_version();
        }
        if found {
            let before = self.append_record(key, payload, Ghost(old(self)@.clock));
            CRUDOperationResult::Updated(key, before, update_version)
        } else {
            CRUDOperationResult::default()
        }
    }

    /// Deletes a record at the next version.
    fn delete_key(&mut self, key: Key) -> (result: CRUDOperationResult)
        requires
            old(self).wf(),
            old(self)@.clock + 2 < LIVE,
        ensures
            final(self).wf(),
            final(self).like(old(self)),
            final(self)@ == deleted(old(self)@, key),
            weaver::links_kept(old(self).records(), final(self).records()),
            final(self).levels() == old(self).levels(),
            result == deletion_answer(old(self)@, key),
    {
        let found = self.find_record(key).is_some();
        proof {
            self.law_state();
            weaver::lemma_links_same(self.records());
        }
        let del_version = self.next_version();
        if found {
            match self.end_record(key, Ghost(old(self)@.clock)) {
                Some(payload) => CRUDOperationResult::Deleted(key, payload, del_version),
                None => {
                    assert(self@.records =~= old(self)@.records);
                    CRUDOperationResult::default()
                },
            }
        } else {
            CRUDOperationResult::default()
        }
    }

    /// A scan of one key lists the record of that key, if it is visible.
    proof fn lemma_point_by_scan(
        &self,
        key: Key,
        version: Version,
        records: Seq<RecordPoint<Key, Payload>>,
    )
        requires
            bplus_tree::scanned(
                self@.records,
                Interval { lower: key, upper: key },
                version,
                records,
            ),
        ensures
            point_answer(self@, key, version) == (if records.len() == 0 {
                None
            } else {
                Some(records.last())
            }),
            records.len() <= 1,
    {
        let interval = Interval { lower: key, upper: key };
        if records.len() > 0 {
            assert(bplus_tree::seen(self@.records, interval, version, records.last()));
        }
        if records.len() > 1 {
            assert(bplus_tree::seen(self@.records, interval, version, records[0]));
            assert(records[0].key < records[records.len() - 1].key);
        }
        if self@.records.contains_key(key) && self@.records[key].lookup(version) is Some {
            assert(interval.has(key));
        }
    }
}

} // verus!
