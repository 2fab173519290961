//! The multi-version tree.

use vstd::prelude::*;
use vstd::arithmetic::power2;
use crate::crud_model::crud_api::NodeVisits;
use crate::locking::locking_strategy::LockingStrategy;
use crate::page_model::leaf_page;
use crate::page_model::leaf_page::Keyed;
use crate::page_model::node;
use crate::page_model::node::Node;
use crate::record_model::record_point::RecordPoint;
use crate::record_model::v_record_point::{RecordInfo, VersionIndexType, VersionedRecordPoint};
use crate::record_model::versioned_entry::LIVE;
use crate::record_model::{Key, Payload, Version};
use crate::tree::record_tree::RecordTree;
use crate::tree::weaver;
use crate::utils::count;
use crate::utils::interval::Interval;
use crate::version_index::index_view;
use crate::version_index::index_view::IndexView;
use crate::version_index::skip_list;
use crate::version_index::v_weaver::{KeyRidge, WeaverNode};
use crate::version_index::version_index::VersionIndex;

verus! {

/// Records by key, each with all its versions, and the clock that numbers these.
pub struct BPlusTree<const FAN_OUT: usize, const NUM_RECORDS: usize> {
    tree: RecordTree<FAN_OUT, NUM_RECORDS, VersionedRecordPoint>,
    clock: Version,
    locking_strategy: LockingStrategy,
    v_index_type: VersionIndexType,
}

/// Some record has the key.
pub open spec fn has_key(s: Seq<VersionedRecordPoint>, key: Key) -> bool {
    exists|i: int| 0 <= i < s.len() && (#[trigger] s[i]).key == key
}

/// The history of each record.
pub open spec fn histories(s: Seq<VersionedRecordPoint>) -> Map<Key, IndexView> {
    Map::new(
        |key: Key| has_key(s, key),
        |key: Key| s[leaf_page::rank(s, key)].version_index@,
    )
}

/// Where the history of a record is found.
pub proof fn lemma_histories(s: Seq<VersionedRecordPoint>, key: Key)
    requires
        leaf_page::sorted(s),
    ensures
        0 <= leaf_page::rank(s, key) <= s.len(),
        has_key(s, key) <==> leaf_page::rank(s, key) < s.len() && s[leaf_page::rank(
            s,
            key,
        )].key == key,
        histories(s).contains_key(key) <==> has_key(s, key),
        has_key(s, key) ==> histories(s)[key] == s[leaf_page::rank(s, key)].version_index@,
{
    leaf_page::lemma_rank(s, key);
    let r = leaf_page::rank(s, key);
    if has_key(s, key) {
        let i = choose|i: int| 0 <= i < s.len() && (#[trigger] s[i]).key == key;
        assert(s[i].key_of() >= key);
        if r < i {
            assert(s[r].key_of() < s[i].key_of());
        }
        assert(r == i);
    }
}

/// The history at a position belongs to the key there.
pub proof fn lemma_history_at(s: Seq<VersionedRecordPoint>, i: int)
    requires
        leaf_page::sorted(s),
        0 <= i < s.len(),
    ensures
        histories(s).contains_key(s[i].key),
        histories(s)[s[i].key] == s[i].version_index@,
        leaf_page::rank(s, s[i].key) == i,
{
    let key = s[i].key;
    assert(has_key(s, key));
    assert forall|j: int| 0 <= j < i implies (#[trigger] s[j]).key_of() < key by {
        assert(s[j].key_of() < s[i].key_of());
    }
    assert forall|j: int| i <= j < s.len() implies (#[trigger] s[j]).key_of() >= key by {
        if i < j {
            assert(s[i].key_of() < s[j].key_of());
        }
    }
    leaf_page::lemma_rank_is(s, key, i);
}

/// Changing a record in place changes its history and no other.
pub proof fn lemma_histories_update(s: Seq<VersionedRecordPoint>, i: int, r: VersionedRecordPoint)
    requires
        leaf_page::sorted(s),
        0 <= i < s.len(),
        r.key == s[i].key,
    ensures
        leaf_page::sorted(s.update(i, r)),
        histories(s.update(i, r)) == histories(s).insert(r.key, r.version_index@),
{
    let t = s.update(i, r);
    assert forall|a: int, b: int| 0 <= a < b < t.len() implies t[a].key_of() < t[b].key_of() by {
        assert(s[a].key_of() < s[b].key_of());
    }
    assert forall|key: Key| #![trigger histories(t).contains_key(key)]
        histories(t).contains_key(key) == histories(s).insert(
            r.key,
            r.version_index@,
        ).contains_key(key) && (histories(t).contains_key(key) ==> histories(t)[key]
            == histories(s).insert(r.key, r.version_index@)[key]) by {
        lemma_histories(s, key);
        lemma_histories(t, key);
        lemma_history_at(t, i);
        if key != r.key && has_key(s, key) {
            let j = leaf_page::rank(s, key);
            assert(t[j] == s[j]);
            lemma_history_at(t, j);
        }
        if key != r.key && has_key(t, key) {
            let j = leaf_page::rank(t, key);
            assert(t[j] == s[j]);
            lemma_history_at(s, j);
        }
    }
    assert(histories(t) =~= histories(s).insert(r.key, r.version_index@));
}

/// A new record brings its own history and changes no other.
pub proof fn lemma_histories_insert(s: Seq<VersionedRecordPoint>, r: VersionedRecordPoint)
    requires
        leaf_page::sorted(s),
        !has_key(s, r.key),
    ensures
        leaf_page::sorted(s.insert(leaf_page::rank(s, r.key), r)),
        histories(s.insert(leaf_page::rank(s, r.key), r)) == histories(s).insert(
            r.key,
            r.version_index@,
        ),
{
    let i = leaf_page::rank(s, r.key);
    lemma_histories(s, r.key);
    leaf_page::lemma_rank(s, r.key);
    let t = s.insert(i, r);
    assert forall|a: int, b: int| 0 <= a < b < t.len() implies t[a].key_of() < t[b].key_of() by {
        if a < i && b < i {
            assert(s[a].key_of() < s[b].key_of());
        } else if a < i && b > i {
            assert(s[a].key_of() < s[b - 1].key_of());
        } else if a > i {
            assert(s[a - 1].key_of() < s[b - 1].key_of());
        } else if a == i {
            assert(s[b - 1].key != r.key);
            assert(s[b - 1].key_of() >= r.key);
        } else {
            assert(s[a].key_of() < r.key);
        }
    }
    assert forall|key: Key| #![trigger histories(t).contains_key(key)]
        histories(t).contains_key(key) == histories(s).insert(
            r.key,
            r.version_index@,
        ).contains_key(key) && (histories(t).contains_key(key) ==> histories(t)[key]
            == histories(s).insert(r.key, r.version_index@)[key]) by {
        lemma_histories(s, key);
        lemma_histories(t, key);
        lemma_history_at(t, i);
        if key != r.key && has_key(s, key) {
            let j = leaf_page::rank(s, key);
            let k = if j < i {
                j
            } else {
                j + 1
            };
            assert(t[k] == s[j]);
            lemma_history_at(t, k);
        }
        if key != r.key && has_key(t, key) {
            let k = leaf_page::rank(t, key);
            let j = if k < i {
                k
            } else {
                k - 1
            };
            assert(t[k] == s[j]);
            lemma_history_at(s, j);
        }
    }
    assert(histories(t) =~= histories(s).insert(r.key, r.version_index@));
}

/// A record of a tree of some kind whose clock stands at `clock`.
pub open spec fn record_ok(
    r: VersionedRecordPoint,
    kind: VersionIndexType,
    clock: Version,
) -> bool {
    &&& r.version_index.wf()
    &&& r.version_index.kind() == kind
    &&& r.version_index@.timely(clock)
    &&& if kind is BTree {
        r.version_index@ == IndexView::Tree(Seq::empty())
    } else {
        r.version_index@.filled()
    }
    &&& r.version_index matches VersionIndex::VWEAVER(weaver) ==> weaver.key() == r.key
}

/// What a transaction can tell a tree by.
pub struct TreeState {
    pub records: Map<Key, IndexView>,
    pub clock: Version,
}

/// The histories are in order, no version is later than the clock, and every record has a
/// version, unless versions are kept in trees, which stay empty.
pub open spec fn sound(
    records: Map<Key, IndexView>,
    clock: Version,
    kind: VersionIndexType,
) -> bool {
    &&& clock < LIVE
    &&& forall|key: Key| #[trigger]
        records.contains_key(key) ==> sound_history(records[key], kind, clock)
}

/// A history of a tree of some kind whose clock stands at `clock`.
pub open spec fn sound_history(
    history: IndexView,
    kind: VersionIndexType,
    clock: Version,
) -> bool {
    &&& history.timely(clock)
    &&& if kind is BTree {
        history == IndexView::Tree(Seq::empty())
    } else {
        history.filled() && !(history is Tree)
    }
}

impl<const FAN_OUT: usize, const NUM_RECORDS: usize> BPlusTree<FAN_OUT, NUM_RECORDS> {
    /// The records, in ascending order of their keys.
    pub closed spec fn records(&self) -> Seq<VersionedRecordPoint> {
        self.tree@
    }

    /// The history of each record, and the clock.
    pub open spec fn view(&self) -> TreeState {
        TreeState { records: histories(self.records()), clock: self.clock_at() }
    }

    /// The version of the last transaction that wrote.
    pub closed spec fn clock_at(&self) -> Version {
        self.clock
    }

    /// The number of levels.
    pub closed spec fn levels(&self) -> nat {
        self.tree.levels()
    }

    /// How readers and writers are kept apart.
    pub closed spec fn strategy(&self) -> LockingStrategy {
        self.locking_strategy
    }

    /// The kind of the version indexes.
    pub closed spec fn kind(&self) -> VersionIndexType {
        self.v_index_type
    }

    /// The tree is sound, and all that happened to its records did so up to now.
    pub closed spec fn wf(&self) -> bool {
        &&& self.tree.wf()
        &&& self.clock < LIVE
        &&& forall|i: int|
            0 <= i < self.tree@.len() ==> record_ok(
                #[trigger] self.tree@[i],
                self.v_index_type,
                self.clock,
            )
        &&& weaver::woven(self.tree@)
    }

    /// Every state of a tree is [`sound`].
    pub proof fn law_state(&self)
        requires
            self.wf(),
        ensures
            sound(self@.records, self@.clock, self.kind()),
            leaf_page::sorted(self.records()),
    {
        self.tree.lemma_page(0);
        assert forall|key: Key| #[trigger] self@.records.contains_key(key) implies sound_history(
            self@.records[key],
            self.kind(),
            self@.clock,
        ) by {
            lemma_histories(self.tree@, key);
            let r = self.tree@[leaf_page::rank(self.tree@, key)];
            assert(record_ok(r, self.v_index_type, self.clock));
        }
    }

    /// The links between keys are as they should be.
    pub proof fn lemma_woven(&self)
        requires
            self.wf(),
        ensures
            leaf_page::sorted(self.records()),
            weaver::woven(self.records()),
            forall|i: int|
                0 <= i < self.records().len() ==> record_ok(
                    #[trigger] self.records()[i],
                    self.kind(),
                    self@.clock,
                ),
    {
        self.tree.lemma_page(0);
    }

    /// The tree is flat: a tree of `n + 1` levels holds at least two to the power of `n` records,
    /// and there are not enough keys for more than sixty-five levels.
    pub proof fn law_height(&self)
        requires
            self.wf(),
        ensures
            1 <= self.levels() <= 65,
            self.levels() > 1 ==> self.records().len() >= power2::pow2(
                (self.levels() - 1) as nat,
            ),
    {
        self.tree.lemma_levels();
    }

    /// A tree without records, whose clock is about to number the first writer.
    pub fn new(locking_strategy: LockingStrategy, v_index_type: VersionIndexType) -> (tree: Self)
        requires
            3 <= FAN_OUT < usize::MAX,
            NUM_RECORDS >= 2,
        ensures
            tree.wf(),
            tree@ == (TreeState { records: Map::empty(), clock: 1 }),
            tree.levels() == 1,
            tree.strategy() == locking_strategy,
            tree.kind() == v_index_type,
    {
        let tree = BPlusTree { tree: RecordTree::new(), clock: 1, locking_strategy, v_index_type };
        assert(tree@.records =~= Map::empty());
        tree
    }

    /// The number of levels.
    pub fn height(&self) -> (h: usize)
        ensures
            h == self.levels(),
    {
        self.tree.height()
    }

    /// How many pages the tree is made of.
    pub closed spec fn page_total(&self) -> nat {
        self.tree.page_total()
    }

    /// The number of levels, found by going down.
    pub fn measured_height(&self) -> (h: usize)
        requires
            self.wf(),
        ensures
            h == self.levels(),
    {
        self.tree.measured_height()
    }

    /// Counts the pages.
    pub fn count_pages(&self) -> (n: usize)
        requires
            self.wf(),
        ensures
            n == count::saturated(self.page_total()),
    {
        self.tree.count_pages()
    }

    /// How readers and writers are kept apart.
    pub fn locking_strategy(&self) -> (strategy: LockingStrategy)
        ensures
            strategy == self.strategy(),
    {
        self.locking_strategy
    }

    /// The kind of the version indexes.
    pub fn version_index_type(&self) -> (kind: VersionIndexType)
        ensures
            kind == self.kind(),
    {
        self.v_index_type
    }

    /// The version of the last transaction that wrote: the newest snapshot that can be read.
    pub fn committed_version(&self) -> (version: Version)
        ensures
            version == self@.clock,
    {
        self.clock
    }

    /// Moves the clock, and hands out the new version.
    pub(crate) fn next_version(&mut self) -> (version: Version)
        requires
            old(self).wf(),
            old(self)@.clock + 1 < LIVE,
        ensures
            final(self).wf(),
            version == old(self)@.clock + 1,
            final(self)@.records == old(self)@.records,
            final(self).records() == old(self).records(),
            final(self)@.clock == version,
            final(self).levels() == old(self).levels(),
            final(self).strategy() == old(self).strategy(),
            final(self).kind() == old(self).kind(),
    {
        self.clock = self.clock + 1;
        proof {
            let s = self.tree@;
            assert forall|i: int| 0 <= i < s.len() implies record_ok(
                #[trigger] s[i],
                self.v_index_type,
                self.clock,
            ) by {
                assert(record_ok(s[i], old(self).v_index_type, old(self).clock));
                index_view::law_timely_later(
                    s[i].version_index@,
                    old(self).clock,
                    self.clock,
                );
            }
        }
        self.clock
    }

    /// The state is as it was, but for the history of one record, and all links between keys are
    /// as they were.
    pub open spec fn changed(&self, after: &Self, key: Key, history: IndexView) -> bool {
        &&& after.wf()
        &&& after@ == (TreeState {
            records: self@.records.insert(key, history),
            clock: self@.clock,
        })
        &&& after.strategy() == self.strategy()
        &&& after.kind() == self.kind()
        &&& weaver::links_kept(self.records(), after.records())
    }

    /// The record that a key has.
    pub(crate) fn find_record(&self, key: Key) -> (found: Option<&VersionedRecordPoint>)
        requires
            self.wf(),
        ensures
            found is Some == self@.records.contains_key(key),
            found matches Some(r) ==> {
                &&& r.key == key
                &&& record_ok(*r, self.kind(), self@.clock)
                &&& r.version_index@ == self@.records[key]
                &&& *r == self.records()[leaf_page::rank(self.records(), key)]
            },
    {
        proof {
            self.tree.lemma_page(key);
            lemma_histories(self.tree@, key);
        }
        let found = self.tree.find(key);
        proof {
            if let Some(r) = found {
                let at = leaf_page::rank(self.tree@, key);
                assert(self.tree@[at].key == key);
                assert(record_ok(self.tree@[at], self.v_index_type, self.clock));
            } else {
                if has_key(self.tree@, key) {
                    let at = leaf_page::rank(self.tree@, key);
                    assert(self.tree@[at].key_of() == key);
                }
            }
        }
        found
    }

    /// Puts a new record into the tree: one that was just inserted at the current version.
    pub(crate) fn put_record(&mut self, key: Key, payload: Payload)
        requires
            old(self).wf(),
            !old(self)@.records.contains_key(key),
        ensures
            old(self).changed(
                final(self),
                key,
                VersionIndex::initial(old(self).kind(), payload, old(self)@.clock),
            ),
            old(self).levels() <= final(self).levels() <= old(self).levels() + 1,
    {
        let record = VersionedRecordPoint::new(key, self.clock, payload, self.v_index_type);
        let ghost s = self.tree@;
        proof {
            self.tree.lemma_page(key);
            lemma_histories(s, key);
            assert(!self.tree.has(key)) by {
                if self.tree.has(key) {
                    let i = choose|i: int| 0 <= i < s.len() && (#[trigger] s[i]).key_of() == key;
                    assert(s[i].key == key);
                }
            }
            lemma_histories_insert(s, record);
            lemma_initial(self.v_index_type, payload, self.clock);
            weaver::lemma_woven_insert(s, record);
            weaver::lemma_links_insert(s, record);
        }
        self.tree.insert(record);
        proof {
            let t = self.tree@;
            let at = leaf_page::rank(s, key);
            assert forall|i: int| 0 <= i < t.len() implies record_ok(
                #[trigger] t[i],
                self.v_index_type,
                self.clock,
            ) by {
                if i < at {
                    assert(t[i] == s[i]);
                } else if i > at {
                    assert(t[i] == s[i - 1]);
                }
            }
        }
    }

    /// Brings a deleted record back at the current version.
    pub(crate) fn revive_record(&mut self, key: Key, payload: Payload, Ghost(clock): Ghost<Version>)
        requires
            old(self).wf(),
            old(self)@.records.contains_key(key),
            !old(self)@.records[key].live(),
            !(old(self).kind() is BTree),
            clock < old(self)@.clock,
            sound(old(self)@.records, clock, old(self).kind()),
        ensures
            old(self).changed(
                final(self),
                key,
                old(self)@.records[key].pushed(old(self)@.clock, payload),
            ),
            final(self).levels() == old(self).levels(),
    {
        let version = self.clock;
        let ghost s = self.tree@;
        let ghost at = leaf_page::rank(s, key);
        proof {
            self.tree.lemma_page(key);
            lemma_histories(s, key);
            assert(s[at].key_of() == key);
            assert(record_ok(s[at], self.v_index_type, self.clock));
            index_view::law_push(s[at].version_index@, version, payload, clock);
        }
        let record = self.tree.get_mut(key);
        record.version_index.push(version, payload);
        let ghost changed = *record;
        proof {
            lemma_touched(s, at, changed, self.v_index_type, self.clock);
            lemma_nodes_until(s, old(self).kind(), clock);
            weaver::lemma_woven_update(s, at, changed, clock);
            weaver::lemma_links_update(s, at, changed, clock);
        }
    }

    /// Gives a live record another payload at the current version, and hands out the one that
    /// it had.
    pub(crate) fn append_record(&mut self, key: Key, payload: Payload, Ghost(clock): Ghost<Version>) -> (before:
        Payload)
        requires
            old(self).wf(),
            old(self)@.records.contains_key(key),
            old(self)@.records[key].live(),
            !(old(self).kind() is BTree),
            clock < old(self)@.clock,
            sound(old(self)@.records, clock, old(self).kind()),
        ensures
            old(self).changed(
                final(self),
                key,
                old(self)@.records[key].appended(old(self)@.clock, payload),
            ),
            final(self).levels() == old(self).levels(),
            before == old(self)@.records[key].newest(),
    {
        let version = self.clock;
        let ghost s = self.tree@;
        let ghost at = leaf_page::rank(s, key);
        proof {
            self.tree.lemma_page(key);
            lemma_histories(s, key);
            assert(s[at].key_of() == key);
            assert(record_ok(s[at], self.v_index_type, self.clock));
            index_view::law_append(s[at].version_index@, version, payload, clock);
        }
        let record = self.tree.get_mut(key);
        let before = record.version_index.append(version, payload);
        let ghost changed = *record;
        proof {
            lemma_touched(s, at, changed, self.v_index_type, self.clock);
            lemma_nodes_until(s, old(self).kind(), clock);
            weaver::lemma_woven_update(s, at, changed, clock);
            weaver::lemma_links_update(s, at, changed, clock);
        }
        before
    }

    /// Deletes a record at the current version, and hands out the payload that it had, if it
    /// was live.
    pub(crate) fn end_record(&mut self, key: Key, Ghost(clock): Ghost<Version>) -> (ended: Option<Payload>)
        requires
            old(self).wf(),
            old(self)@.records.contains_key(key),
            clock < old(self)@.clock,
            sound(old(self)@.records, clock, old(self).kind()),
        ensures
            old(self).changed(
                final(self),
                key,
                old(self)@.records[key].deleted(old(self)@.clock),
            ),
            final(self).levels() == old(self).levels(),
            ended == (if old(self)@.records[key].live() {
                Some(old(self)@.records[key].newest())
            } else {
                None
            }),
    {
        let version = self.clock;
        let ghost s = self.tree@;
        let ghost at = leaf_page::rank(s, key);
        proof {
            self.tree.lemma_page(key);
            lemma_histories(s, key);
            assert(s[at].key_of() == key);
            assert(record_ok(s[at], self.v_index_type, self.clock));
            if !(self.v_index_type is BTree) {
                index_view::law_delete(s[at].version_index@, version, clock);
            }
        }
        let record = self.tree.get_mut(key);
        let ended = record.version_index.delete(version);
        let ghost changed = *record;
        proof {
            lemma_touched(s, at, changed, self.v_index_type, self.clock);
            lemma_nodes_until(s, old(self).kind(), clock);
            weaver::lemma_woven_update(s, at, changed, clock);
            weaver::lemma_links_update(s, at, changed, clock);
        }
        ended
    }

    /// The records on the leaf for a key.
    pub closed spec fn page_at(&self, key: Key) -> Seq<VersionedRecordPoint> {
        self.tree.page_of(key)
    }

    /// The largest key that belongs to the leaf for a key.
    pub closed spec fn fence_at(&self, key: Key) -> int {
        self.tree.fence(key)
    }

    /// Links a version of a key to a version of another.
    pub(crate) fn link_record(&mut self, key: Key, at: WeaverNode, to: KeyRidge<Key>)
        requires
            old(self).wf(),
            old(self).kind() is VWEAVER,
            has_key(old(self).records(), key),
            at < weaver::nodes_at(old(self).records(), key).len(),
            weaver::ridge_ok(
                old(self).records(),
                key,
                weaver::nodes_at(old(self).records(), key),
                at as int,
                to,
            ),
        ensures
            final(self).wf(),
            final(self)@ == old(self)@,
            final(self).kind() == old(self).kind(),
            final(self).strategy() == old(self).strategy(),
            final(self).levels() == old(self).levels(),
            exists|r: VersionedRecordPoint|
                final(self).records() == #[trigger] old(self).records().update(
                    leaf_page::rank(old(self).records(), key),
                    r,
                ) && r.key == key && weaver::nodes_of(r) == weaver::with_link(
                    weaver::nodes_at(old(self).records(), key),
                    at as int,
                    to,
                ),
    {
        let ghost s = self.tree@;
        let ghost i = leaf_page::rank(s, key);
        proof {
            self.tree.lemma_page(key);
            lemma_histories(s, key);
            assert(s[i].key_of() == key);
            assert(record_ok(s[i], self.v_index_type, self.clock));
        }
        let record = self.tree.get_mut(key);
        match &mut record.version_index {
            VersionIndex::VWEAVER(list) => list.set_k_ridgy(at, to),
            _ => {},
        }
        let ghost changed = *record;
        proof {
            lemma_touched(s, i, changed, self.v_index_type, self.clock);
            weaver::lemma_woven_link(s, i, changed, at as int, to);
            assert(histories(self.tree@) =~= histories(s));
            assert(self.tree@ == s.update(i, changed));
        }
    }

    /// What a leaf holds are records of the tree, in ascending order of their keys.
    pub proof fn lemma_page_records(&self, key: Key)
        requires
            self.wf(),
        ensures
            key <= self.fence_at(key) <= Key::MAX,
            leaf_page::sorted(self.page_at(key)),
            forall|i: int| #![trigger self.page_at(key)[i]]
                0 <= i < self.page_at(key).len() ==> {
                    &&& record_ok(self.page_at(key)[i], self.kind(), self@.clock)
                    &&& has_key(self.records(), self.page_at(key)[i].key)
                    &&& self.records()[leaf_page::rank(
                        self.records(),
                        self.page_at(key)[i].key,
                    )] == self.page_at(key)[i]
                },
    {
        self.tree.lemma_page(key);
        let s = self.tree@;
        let page = self.page_at(key);
        let start = self.tree.page_start(key);
        assert forall|i: int, j: int| 0 <= i < j < page.len() implies page[i].key_of()
            < page[j].key_of() by {
            assert(s[start + i].key_of() < s[start + j].key_of());
        }
        assert forall|i: int| #![trigger page[i]] 0 <= i < page.len() implies {
            &&& record_ok(page[i], self.kind(), self@.clock)
            &&& has_key(s, page[i].key)
            &&& s[leaf_page::rank(s, page[i].key)] == page[i]
        } by {
            assert(page[i] == s[start + i]);
            lemma_history_at(s, start + i);
            assert(record_ok(s[start + i], self.v_index_type, self.clock));
        }
    }

    /// The leaf for a key holds all records from the key up to the fence, and none behind it.
    pub proof fn lemma_page_range(&self, key: Key)
        requires
            self.wf(),
        ensures
            forall|k: Key|
                #![trigger has_key(self.records(), k)]
                has_key(self.records(), k) && key <= k <= self.fence_at(key) ==> has_key(
                    self.page_at(key),
                    k,
                ),
            forall|i: int|
                0 <= i < self.page_at(key).len() ==> (#[trigger] self.page_at(key)[i]).key
                    <= self.fence_at(key),
    {
        self.tree.lemma_page(key);
        let s = self.tree@;
        let page = self.page_at(key);
        let start = self.tree.page_start(key);
        assert forall|k: Key|
            #![trigger has_key(s, k)]
            has_key(s, k) && key <= k <= self.fence_at(key) implies has_key(page, k) by {
            let i = choose|i: int| 0 <= i < s.len() && (#[trigger] s[i]).key == k;
            assert(s[i].key_of() == k);
            assert(page[i - start] == s[i]);
        }
        assert forall|i: int| 0 <= i < page.len() implies (#[trigger] page[i]).key
            <= self.fence_at(key) by {
            assert(page[i] == s[start + i]);
            assert(s[start + i].key_of() <= self.tree.fence(key));
        }
    }

    /// The pages.
    pub closed spec fn root(&self) -> Node<NUM_RECORDS, VersionedRecordPoint> {
        self.tree.root()
    }

    /// The right ends of the leaves as they are read from the separators.
    pub(crate) fn right_ends(&self) -> (ends: Vec<Key>)
        requires
            self.wf(),
        ensures
            ends@ == self.root().right_ends(Key::MAX, self.levels()),
    {
        self.tree.right_ends()
    }

    /// The fences of the leaves, and which of the right ends are such.
    pub proof fn lemma_ends(&self, key: Key)
        requires
            self.wf(),
            self.levels() > 1,
        ensures
            ({
                let fences = self.root().fences(Key::MAX, self.levels());
                let ends = self.root().right_ends(Key::MAX, self.levels());
                &&& fences.len() > 0
                &&& fences.last() == Key::MAX
                &&& node::ascending(fences)
                &&& forall|i: int|
                    0 <= i < fences.len() && node::between(fences, -1, i, key) ==> self.fence_at(
                        key,
                    ) == #[trigger] fences[i]
                &&& self.levels() <= 3 ==> ends.len() == fences.len() && ends.drop_last()
                    == fences.drop_last()
            }),
    {
        self.tree.lemma_ends(key);
    }

    /// The leaf for a key, and the largest key that belongs to it.
    pub(crate) fn leaf(&self, key: Key) -> (found: (&[VersionedRecordPoint], Key))
        requires
            self.wf(),
        ensures
            found.0@ == self.page_at(key),
            found.1 == self.fence_at(key),
            key <= found.1,
            leaf_page::sorted(self.records()),
            weaver::woven(self.records()),
            leaf_page::sorted(found.0@),
            forall|i: int| #![trigger found.0@[i]]
                0 <= i < found.0@.len() ==> {
                    &&& record_ok(found.0@[i], self.kind(), self@.clock)
                    &&& has_key(self.records(), found.0@[i].key)
                    &&& self.records()[leaf_page::rank(self.records(), found.0@[i].key)]
                        == found.0@[i]
                },
    {
        let (page, upper) = self.tree.page(key);
        proof {
            self.tree.lemma_page(key);
            self.lemma_page_records(key);
        }
        (page.as_records(), upper)
    }

    /// How many leaves hold the keys from `lower` to `upper`.
    pub closed spec fn pages(&self, lower: Key, upper: Key) -> nat {
        self.tree.pages_from(lower, upper)
    }

    /// How many pages a scan comes by: it descends once for each leaf.
    pub open spec fn scan_visits(&self, interval: Interval) -> nat {
        count::saturated(self.levels() * self.pages(interval.lower, interval.upper))
    }

    /// On three or more levels there are as many right ends as leaves, and each of them is the
    /// fence of its leaf or of an earlier one.
    pub proof fn law_right_ends(&self)
        requires
            self.wf(),
            self.levels() >= 3,
        ensures
            node::at_most_behind(
                self.root().right_ends(Key::MAX, self.levels()),
                self.root().fences(Key::MAX, self.levels()),
            ),
    {
        self.tree.law_right_ends();
    }

    /// The pages of the tree are those of its root and of all that lies below.
    pub proof fn law_page_total(&self)
        ensures
            self.page_total() == self.root().pages(),
    {
        self.tree.law_page_total();
    }

    /// The fences of the leaves that keys of an interval belong to.
    pub open spec fn fences_met(&self, interval: Interval) -> Set<int> {
        Set::new(
            |f: int|
                exists|k: Key|
                    interval.lower <= k <= interval.upper && #[trigger] self.fence_at(k) == f,
        )
    }

    /// A scan visits the pages from the root to the leaf once for each leaf that some key of its
    /// interval belongs to, and once if the interval is empty.
    pub proof fn law_scan_visits(&self, interval: Interval)
        requires
            self.wf(),
        ensures
            interval.lower <= interval.upper ==> {
                let n = self.levels() * self.fences_met(interval).len();
                self.fences_met(interval).finite() && self.scan_visits(interval) == if n
                    <= usize::MAX {
                    n as nat
                } else {
                    usize::MAX as nat
                }
            },
            interval.lower > interval.upper ==> self.scan_visits(interval) == self.levels(),
    {
        self.law_height();
        self.tree.law_leaves_are_met_once(interval.lower, interval.upper);
        let (lower, upper) = (interval.lower, interval.upper);
        let l = self.levels();
        assert(l * 1 == l) by (nonlinear_arith);
        let (a, b) = (self.fences_met(interval), self.tree.fences_met(lower, upper));
        assert forall|f: int| a.contains(f) <==> b.contains(f) by {
            if a.contains(f) {
                let k = choose|k: Key| lower <= k <= upper && #[trigger] self.fence_at(k) == f;
                assert(self.tree.fence(k) == f);
            }
            if b.contains(f) {
                let k = choose|k: Key| lower <= k <= upper && #[trigger] self.tree.fence(k) == f;
                assert(self.fence_at(k) == f);
            }
        }
        assert(a =~= b);
    }

    /// Lists the records of an interval that a reader of snapshot `version` sees, leaf by leaf.
    pub(crate) fn scan(&self, interval: Interval, version: Version) -> (scan: (
        NodeVisits,
        Vec<RecordPoint<Key, Payload>>,
    ))
        requires
            self.wf(),
        ensures
            scan.0 == self.scan_visits(interval),
            scanned(self@.records, interval, version, scan.1@),
    {
        let height = self.tree.height();
        let mut out: Vec<RecordPoint<Key, Payload>> = Vec::new();
        let mut visits: usize = 0;
        let mut lower: Key = interval.lower;
        let ghost s = self.tree@;
        let ghost from = leaf_page::rank(s, lower);
        let ghost mut done: nat = 0;
        proof {
            self.tree.lemma_page(lower);
            leaf_page::lemma_rank(s, lower);
            self.tree.lemma_in_page(lower);
            assert(s.subrange(from, from) =~= Seq::<VersionedRecordPoint>::empty());
            assert(visible(s.subrange(from, from), version) =~= out@);
            assert(self.levels() * 0 == 0) by (nonlinear_arith);
        }
        loop
            invariant_except_break
                interval.lower <= lower,
                lower == interval.lower || lower <= interval.upper,
                from <= leaf_page::rank(s, lower) <= s.len(),
                forall|i: int| from <= i < leaf_page::rank(s, lower) ==> interval.has(
                    (#[trigger] s[i]).key,
                ),
                out@ == visible(s.subrange(from, leaf_page::rank(s, lower)), version),
                visits == count::saturated(self.levels() * done),
                done + self.tree.pages_from(lower, interval.upper) == self.tree.pages_from(
                    interval.lower,
                    interval.upper,
                ),
            invariant
                self.wf(),
                s == self.tree@,
                leaf_page::sorted(s),
                height == self.levels(),
                from == leaf_page::rank(s, interval.lower),
                0 <= from <= s.len(),
                forall|i: int| 0 <= i < from ==> (#[trigger] s[i]).key < interval.lower,
                forall|i: int| from <= i < s.len() ==> (#[trigger] s[i]).key >= interval.lower,
            ensures
                visits == self.scan_visits(interval),
                scanned(self@.records, interval, version, out@),
            decreases Key::MAX - lower,
        {
            let (page, upper) = self.tree.page(lower);
            let ghost before = visits;
            visits = visits.saturating_add(height);
            proof {
                let l = self.levels() as int;
                let d = done as int;
                assert(l * (d + 1) == l * d + l) by (nonlinear_arith);
                done = done + 1;
                self.tree.lemma_page(lower);
                self.tree.lemma_in_page(lower);
                leaf_page::lemma_rank(s, lower);
            }
            let n = page.len();
            let mut i: usize = match page.search(lower) {
                Ok(at) => at,
                Err(at) => at,
            };
            let ghost start = self.tree.page_start(lower);
            while i < n && page.record_data.get_unchecked(i).key <= interval.upper
                invariant
                    self.wf(),
                    s == self.tree@,
                    leaf_page::sorted(s),
                    start == self.tree.page_start(lower),
                    0 <= start <= self.tree.page_end(lower) <= s.len(),
                    page@ == self.tree.page_of(lower),
                    i <= n,
                    n == page@.len(),
                    0 <= from <= start + i,
                    forall|k: int| from <= k < s.len() ==> (#[trigger] s[k]).key >= interval.lower,
                    forall|k: int| from <= k < start + i ==> interval.has((#[trigger] s[k]).key),
                    out@ == visible(s.subrange(from, start + i), version),
                ensures
                    i < n ==> s[start + i].key > interval.upper,
                decreases n - i,
            {
                let record = page.record_data.get_unchecked(i);
                proof {
                    assert(*record == s[start + i]);
                    assert(record_ok(s[start + i], self.v_index_type, self.clock));
                    let t = s.subrange(from, start + i + 1);
                    assert(t.drop_last() =~= s.subrange(from, start + i));
                    assert(t.last() == s[start + i]);
                }
                match record.version_index.find(version) {
                    Some(found) => {
                        out.push(RecordPoint::new(record.key, found.payload));
                    },
                    None => {},
                }
                i = i + 1;
            }
            if i < n || upper >= interval.upper {
                proof {
                    let to = start + i;
                    assert forall|k: int| to <= k < s.len() implies (#[trigger] s[k]).key
                        > interval.upper by {
                        if i < n && k > to {
                            assert(s[to].key_of() < s[k].key_of());
                        } else if i == n {
                            assert(s[k].key_of() > upper);
                        }
                    }
                    lemma_scanned(s, from, to, interval, version);
                    if i < n {
                        assert(s[start + i].key_of() <= upper);
                    }
                }
                break;
            }
            proof {
                let next: Key = (upper + 1) as Key;
                leaf_page::lemma_rank_is(s, next, self.tree.page_end(lower));
            }
            lower = upper + 1;
        }
        (visits, out)
    }

    /// The first record.
    pub(crate) fn first_record(&self) -> (found: Option<&VersionedRecordPoint>)
        requires
            self.wf(),
        ensures
            found is None ==> self@.records == Map::<Key, IndexView>::empty(),
            found matches Some(r) ==> {
                &&& is_first(self@.records, r.key)
                &&& record_ok(*r, self.kind(), self@.clock)
                &&& r.version_index@ == self@.records[r.key]
            },
    {
        let (page, _) = self.tree.page(Key::MIN);
        let ghost s = self.tree@;
        proof {
            self.tree.lemma_page(Key::MIN);
            if s.len() == 0 {
                assert(self@.records =~= Map::<Key, IndexView>::empty());
            }
        }
        if page.is_empty() {
            None
        } else {
            let record = page.record_data.get_unchecked(0);
            proof {
                assert(*record == s[0]);
                assert(record_ok(s[0], self.v_index_type, self.clock));
                lemma_history_at(s, 0);
                assert forall|key: Key| #[trigger]
                    self@.records.contains_key(key) implies record.key <= key by {
                    lemma_histories(s, key);
                    let at = leaf_page::rank(s, key);
                    if at > 0 {
                        assert(s[0].key_of() < s[at].key_of());
                    }
                }
            }
            Some(record)
        }
    }

    /// The last record.
    pub(crate) fn last_record(&self) -> (found: Option<&VersionedRecordPoint>)
        requires
            self.wf(),
        ensures
            found is None ==> self@.records == Map::<Key, IndexView>::empty(),
            found matches Some(r) ==> {
                &&& is_last(self@.records, r.key)
                &&& record_ok(*r, self.kind(), self@.clock)
                &&& r.version_index@ == self@.records[r.key]
            },
    {
        let (page, _) = self.tree.page(Key::MAX);
        let ghost s = self.tree@;
        proof {
            self.tree.lemma_page(Key::MAX);
            if s.len() == 0 {
                assert(self@.records =~= Map::<Key, IndexView>::empty());
            }
        }
        let n = page.len();
        if n == 0 {
            None
        } else {
            let record = page.record_data.get_unchecked(n - 1);
            proof {
                assert(self.tree.page_end(Key::MAX) == s.len()) by {
                    if self.tree.page_end(Key::MAX) < s.len() {
                        assert(s[self.tree.page_end(Key::MAX)].key_of() > self.tree.fence(Key::MAX));
                    }
                }
                let last = s.len() - 1;
                assert(*record == s[last]);
                assert(record_ok(s[last], self.v_index_type, self.clock));
                lemma_history_at(s, last);
                assert forall|key: Key| #[trigger]
                    self@.records.contains_key(key) implies key <= record.key by {
                    lemma_histories(s, key);
                    let at = leaf_page::rank(s, key);
                    if at < last {
                        assert(s[at].key_of() < s[last].key_of());
                    }
                }
            }
            Some(record)
        }
    }
}

/// The smallest key.
pub open spec fn is_first(records: Map<Key, IndexView>, key: Key) -> bool {
    &&& records.contains_key(key)
    &&& forall|k: Key| #[trigger] records.contains_key(k) ==> key <= k
}

/// The largest key.
pub open spec fn is_last(records: Map<Key, IndexView>, key: Key) -> bool {
    &&& records.contains_key(key)
    &&& forall|k: Key| #[trigger] records.contains_key(k) ==> k <= key
}

/// What a reader of snapshot `version` sees of some records.
pub open spec fn visible(s: Seq<VersionedRecordPoint>, version: Version) -> Seq<
    RecordPoint<Key, Payload>,
>
    decreases s.len(),
{
    if s.len() == 0 {
        Seq::empty()
    } else {
        let out = visible(s.drop_last(), version);
        match s.last().version_index@.lookup(version) {
            Some(found) => out.push(RecordPoint { key: s.last().key, payload: found.payload }),
            None => out,
        }
    }
}

/// `out` lists, in ascending order of the keys, every record of the interval that a reader of
/// snapshot `version` sees, and no other.
pub open spec fn scanned(
    records: Map<Key, IndexView>,
    interval: Interval,
    version: Version,
    out: Seq<RecordPoint<Key, Payload>>,
) -> bool {
    &&& forall|i: int, j: int| 0 <= i < j < out.len() ==> out[i].key < out[j].key
    &&& forall|i: int| 0 <= i < out.len() ==> seen(records, interval, version, #[trigger] out[i])
    &&& forall|key: Key| #[trigger]
        records.contains_key(key) && interval.has(key) && records[key].lookup(version) is Some
            ==> exists|i: int| 0 <= i < out.len() && (#[trigger] out[i]).key == key
}

/// The record is one of the interval, and a reader of snapshot `version` sees its payload.
pub open spec fn seen(
    records: Map<Key, IndexView>,
    interval: Interval,
    version: Version,
    r: RecordPoint<Key, Payload>,
) -> bool {
    &&& interval.has(r.key)
    &&& records.contains_key(r.key)
    &&& records[r.key].lookup(version) matches Some(found)
    &&& found.payload == r.payload
}

/// What is seen of some records in ascending order.
proof fn lemma_visible(s: Seq<VersionedRecordPoint>, version: Version)
    requires
        leaf_page::sorted(s),
    ensures
        forall|i: int, j: int|
            0 <= i < j < visible(s, version).len() ==> visible(s, version)[i].key < visible(
                s,
                version,
            )[j].key,
        forall|i: int|
            0 <= i < visible(s, version).len() ==> shown(
                s,
                version,
                #[trigger] visible(s, version)[i],
            ),
        forall|k: int|
            0 <= k < s.len() && (#[trigger] s[k]).version_index@.lookup(version) is Some
                ==> exists|i: int|
                0 <= i < visible(s, version).len() && (#[trigger] visible(s, version)[i]).key
                    == s[k].key,
    decreases s.len(),
{
    if s.len() > 0 {
        let t = s.drop_last();
        lemma_visible(t, version);
        let a = visible(t, version);
        let out = visible(s, version);
        assert forall|i: int| 0 <= i < out.len() implies shown(s, version, #[trigger] out[i]) by {
            if i < a.len() {
                assert(out[i] == a[i]);
                assert(shown(t, version, a[i]));
                let k = choose|k: int| shown_by(t, k, version, a[i]);
                assert(t[k] == s[k]);
                assert(shown_by(s, k, version, out[i]));
            } else {
                assert(shown_by(s, s.len() - 1, version, out[i]));
            }
        }
        if out.len() > a.len() {
            assert forall|i: int, j: int| 0 <= i < j < out.len() implies out[i].key
                < out[j].key by {
                if j == a.len() {
                    assert(shown(t, version, a[i]));
                    let k = choose|k: int| shown_by(t, k, version, a[i]);
                    assert(t[k] == s[k]);
                    assert(s[k].key_of() < s[s.len() - 1].key_of());
                }
            }
        }
        assert forall|k: int|
            0 <= k < s.len() && (
            #[trigger] s[k]).version_index@.lookup(version) is Some implies exists|i: int|
            0 <= i < out.len() && (#[trigger] out[i]).key == s[k].key by {
            if k < t.len() {
                assert(t[k] == s[k]);
                let i = choose|i: int| 0 <= i < a.len() && (#[trigger] a[i]).key == t[k].key;
                assert(out[i] == a[i]);
            } else {
                assert(out[a.len() as int].key == s[k].key);
            }
        }
    }
}

/// What is shown of the record at a position.
spec fn shown_by(
    s: Seq<VersionedRecordPoint>,
    k: int,
    version: Version,
    r: RecordPoint<Key, Payload>,
) -> bool {
    &&& 0 <= k < s.len()
    &&& s[k].key == r.key
    &&& s[k].version_index@.lookup(version) matches Some(found)
    &&& found.payload == r.payload
}

/// What is shown of some record.
spec fn shown(
    s: Seq<VersionedRecordPoint>,
    version: Version,
    r: RecordPoint<Key, Payload>,
) -> bool {
    exists|k: int| shown_by(s, k, version, r)
}

/// What is seen of the records of an interval is what a scan lists.
proof fn lemma_scanned(
    s: Seq<VersionedRecordPoint>,
    from: int,
    to: int,
    interval: Interval,
    version: Version,
)
    requires
        leaf_page::sorted(s),
        0 <= from <= to <= s.len(),
        forall|i: int| 0 <= i < from ==> (#[trigger] s[i]).key < interval.lower,
        forall|i: int| from <= i < to ==> interval.has((#[trigger] s[i]).key),
        forall|i: int| to <= i < s.len() ==> (#[trigger] s[i]).key > interval.upper || s[i].key
            < interval.lower,
    ensures
        scanned(histories(s), interval, version, visible(s.subrange(from, to), version)),
{
    let t = s.subrange(from, to);
    let out = visible(t, version);
    assert forall|i: int, j: int| 0 <= i < j < t.len() implies t[i].key_of() < t[j].key_of() by {
        assert(s[from + i].key_of() < s[from + j].key_of());
    }
    lemma_visible(t, version);
    let m = histories(s);
    assert forall|i: int| 0 <= i < out.len() implies seen(
        m,
        interval,
        version,
        #[trigger] out[i],
    ) by {
        assert(shown(t, version, out[i]));
        let k = choose|k: int| shown_by(t, k, version, out[i]);
        assert(t[k] == s[from + k]);
        lemma_history_at(s, from + k);
    }
    assert forall|key: Key| #[trigger]
        m.contains_key(key) && interval.has(key) && m[key].lookup(
            version,
        ) is Some implies exists|i: int| 0 <= i < out.len() && (#[trigger] out[i]).key == key by {
        lemma_histories(s, key);
        let at = leaf_page::rank(s, key);
        assert(s[at].key == key);
        assert(from <= at < to);
        assert(t[at - from] == s[at]);
    }
}

/// There is only one list that a scan can come to.
pub proof fn law_scan_is_determined(
    records: Map<Key, IndexView>,
    interval: Interval,
    version: Version,
    a: Seq<RecordPoint<Key, Payload>>,
    b: Seq<RecordPoint<Key, Payload>>,
)
    requires
        scanned(records, interval, version, a),
        scanned(records, interval, version, b),
    ensures
        a == b,
    decreases a.len(),
{
    lemma_scan_prefix(records, interval, version, a, b, 0);
    lemma_scan_prefix(records, interval, version, b, a, 0);
    assert(a =~= b);
}

/// Two scans agree from a common start on.
proof fn lemma_scan_prefix(
    records: Map<Key, IndexView>,
    interval: Interval,
    version: Version,
    a: Seq<RecordPoint<Key, Payload>>,
    b: Seq<RecordPoint<Key, Payload>>,
    n: int,
)
    requires
        scanned(records, interval, version, a),
        scanned(records, interval, version, b),
        0 <= n <= a.len(),
        n <= b.len(),
        forall|i: int| 0 <= i < n ==> a[i] == b[i],
    ensures
        a.len() <= b.len(),
        forall|i: int| 0 <= i < a.len() ==> a[i] == b[i],
    decreases a.len() - n,
{
    if n < a.len() {
        let key = a[n].key;
        assert(seen(records, interval, version, a[n]));
        let i = choose|i: int| 0 <= i < b.len() && (#[trigger] b[i]).key == key;
        if i < n {
            assert(a[i].key < a[n].key);
        }
        assert(n < b.len());
        if i > n {
            let other = b[n].key;
            assert(seen(records, interval, version, b[n]));
            let j = choose|j: int| 0 <= j < a.len() && (#[trigger] a[j]).key == other;
            assert(b[n].key < b[i].key);
            if j < n {
                assert(b[j].key < b[n].key);
            } else if j > n {
                assert(a[n].key < a[j].key);
            }
        }
        assert(i == n);
        assert(seen(records, interval, version, b[n]));
        assert(a[n] == b[n]);
        lemma_scan_prefix(records, interval, version, a, b, n + 1);
    }
}

/// The nodes of sound records are no later than the clock.
proof fn lemma_nodes_until(s: Seq<VersionedRecordPoint>, kind: VersionIndexType, clock: Version)
    requires
        leaf_page::sorted(s),
        sound(histories(s), clock, kind),
    ensures
        forall|i: int| 0 <= i < s.len() ==> weaver::nodes_until(#[trigger] s[i], clock),
{
    assert forall|i: int| 0 <= i < s.len() implies weaver::nodes_until(
        #[trigger] s[i],
        clock,
    ) by {
        lemma_history_at(s, i);
        let h = histories(s)[s[i].key];
        assert(sound_history(h, kind, clock));
        assert forall|p: int| 0 <= p < weaver::nodes_of(s[i]).len() implies (
        #[trigger] weaver::nodes_of(s[i])[p]).insert_version <= clock by {
            assert(h->Nodes_0[p].insert_version == weaver::nodes_of(s[i])[p].insert_version);
        }
    }
}

/// One changed record among sound ones.
proof fn lemma_touched(
    s: Seq<VersionedRecordPoint>,
    at: int,
    r: VersionedRecordPoint,
    kind: VersionIndexType,
    clock: Version,
)
    requires
        leaf_page::sorted(s),
        0 <= at < s.len(),
        r.key == s[at].key,
        record_ok(r, kind, clock),
        forall|i: int| 0 <= i < s.len() ==> record_ok(#[trigger] s[i], kind, clock),
    ensures
        histories(s.update(at, r)) == histories(s).insert(r.key, r.version_index@),
        forall|i: int|
            0 <= i < s.len() ==> record_ok(#[trigger] s.update(at, r)[i], kind, clock),
{
    lemma_histories_update(s, at, r);
    let t = s.update(at, r);
    assert forall|i: int| 0 <= i < s.len() implies record_ok(#[trigger] t[i], kind, clock) by {
        if i != at {
            assert(t[i] == s[i]);
        }
    }
}

/// A history that has just begun is in order.
pub proof fn lemma_initial(kind: VersionIndexType, payload: Payload, version: Version)
    ensures
        VersionIndex::initial(kind, payload, version).timely(version),
        !(kind is BTree) ==> VersionIndex::initial(kind, payload, version).filled(),
        !(kind is BTree) ==> VersionIndex::initial(kind, payload, version).live(),
        !(kind is BTree) ==> VersionIndex::initial(kind, payload, version).newest() == payload,
{
    if kind is SkipList || kind is SkipListSynced {
        let m = skip_list::VersionMap::empty().insert(version, RecordInfo::fresh(payload));
        assert(skip_list::is_last(m, version));
        skip_list::lemma_last_key(m, version);
    }
}

} // verus!
