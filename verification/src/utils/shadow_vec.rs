//! A vector of bounded capacity, and a version list with the index that is built on it.

use vstd::prelude::*;
use vstd::arithmetic::power2;
use crate::record_model::record_point::RecordPoint;
use crate::record_model::v_record_point::VersionIndexType;
use crate::record_model::versioned_entry;
use crate::record_model::versioned_entry::{close_newest, find_visible, LIVE};
use crate::record_model::{Payload, Version};
use crate::version_index::index_view::IndexView;
use crate::version_index::skip_list;
use crate::version_index::skip_list::{
    skip_clone, skip_delete, skip_get, skip_is_live, skip_len, skip_new, skip_newest_payload,
    skip_push, SkipListImpl, VersionPoint,
};
use crate::version_index::version_index;
use crate::version_index::version_tree;
use crate::version_index::version_tree::{
    new_btree, tree_clone, tree_delete, tree_find, tree_is_live, tree_len, tree_newest_payload,
    tree_push, DexaBTree,
};

pub use crate::record_model::versioned_entry::{VersionListIterator, VersionedEntry};

verus! {

/// The elements of a page: as many as the page has room for.
pub struct ShadowVec<E> {
    items: Vec<E>,
    capacity: usize,
}

impl<E> ShadowVec<E> {
    /// The elements.
    pub closed spec fn view(&self) -> Seq<E> {
        self.items@
    }

    /// How many elements there is room for.
    pub closed spec fn capacity(&self) -> usize {
        self.capacity
    }

    /// The elements fit.
    pub open spec fn wf(&self) -> bool {
        self@.len() <= self.capacity()
    }

    /// An empty vector with room for `capacity` elements.
    pub fn with_room_for(capacity: usize) -> (v: Self)
        ensures
            v.wf(),
            v@ == Seq::<E>::empty(),
            v.capacity() == capacity,
    {
        ShadowVec { items: Vec::new(), capacity }
    }

    /// The number of elements.
    pub fn len(&self) -> (n: usize)
        ensures
            n == self@.len(),
    {
        self.items.len()
    }

    /// Whether there is room for one more element.
    pub fn has_room(&self) -> (r: bool)
        requires
            self.wf(),
        ensures
            r == (self@.len() < self.capacity()),
    {
        self.items.len() < self.capacity
    }

    /// All elements.
    pub fn as_slice(&self) -> (items: &[E])
        ensures
            items@ == self@,
    {
        self.items.as_slice()
    }

    /// The element at `index`, to be changed in place.
    pub fn get_unchecked_mut(&mut self, index: usize) -> (e: &mut E)
        requires
            index < old(self)@.len(),
        ensures
            *e == old(self)@[index as int],
            final(self)@ == old(self)@.update(index as int, *final(e)),
            final(self).capacity() == old(self).capacity(),
    {
        &mut self.items[index]
    }

    /// The element at `index`.
    pub fn get_unchecked(&self, index: usize) -> (e: &E)
        requires
            index < self@.len(),
        ensures
            *e == self@[index as int],
    {
        &self.items[index]
    }

    /// Drops all elements.
    pub fn clear(&mut self)
        ensures
            final(self).wf(),
            final(self)@ == Seq::<E>::empty(),
            final(self).capacity() == old(self).capacity(),
    {
        self.items.clear();
    }

    /// Drops the elements from position `len` on.
    pub fn truncate(&mut self, len: usize)
        requires
            old(self).wf(),
            len <= old(self)@.len(),
        ensures
            final(self).wf(),
            final(self)@ == old(self)@.take(len as int),
            final(self).capacity() == old(self).capacity(),
    {
        self.items.truncate(len);
    }

    /// Puts all of `items` behind the last element.
    pub fn extend(&mut self, items: Vec<E>)
        requires
            old(self)@.len() + items@.len() <= old(self).capacity(),
        ensures
            final(self).wf(),
            final(self)@ == old(self)@ + items@,
            final(self).capacity() == old(self).capacity(),
    {
        let mut items = items;
        self.items.append(&mut items);
    }

    /// Takes the last element out.
    pub fn pop(&mut self) -> (e: E)
        requires
            old(self).wf(),
            old(self)@.len() > 0,
        ensures
            final(self).wf(),
            e == old(self)@.last(),
            final(self)@ == old(self)@.drop_last(),
            final(self).capacity() == old(self).capacity(),
    {
        self.items.pop().unwrap()
    }

    /// Takes the element at `index` out and closes the gap.
    pub fn remove(&mut self, index: usize) -> (e: E)
        requires
            old(self).wf(),
            index < old(self)@.len(),
        ensures
            final(self).wf(),
            e == old(self)@[index as int],
            final(self)@ == old(self)@.remove(index as int),
            final(self).capacity() == old(self).capacity(),
    {
        if index == self.items.len() - 1 {
            let e = self.pop();
            assert(self@ =~= old(self)@.remove(index as int));
            e
        } else {
            self.items.remove(index)
        }
    }

    /// Puts an element behind the last one.
    pub fn push(&mut self, e: E)
        requires
            old(self)@.len() < old(self).capacity(),
        ensures
            final(self).wf(),
            final(self)@ == old(self)@.push(e),
            final(self).capacity() == old(self).capacity(),
    {
        self.items.push(e);
    }

    /// Puts an element at `index` and moves what was there and behind it up.
    pub fn insert(&mut self, index: usize, e: E)
        requires
            old(self)@.len() < old(self).capacity(),
            index <= old(self)@.len(),
        ensures
            final(self).wf(),
            final(self)@ == old(self)@.insert(index as int, e),
            final(self).capacity() == old(self).capacity(),
    {
        self.items.insert(index, e);
    }

    /// Moves the elements from position `at` on into a vector of their own.
    pub fn split_off(&mut self, at: usize) -> (tail: Self)
        requires
            old(self).wf(),
            at <= old(self)@.len(),
        ensures
            final(self).wf(),
            tail.wf(),
            final(self)@ == old(self)@.take(at as int),
            tail@ == old(self)@.skip(at as int),
            final(self).capacity() == old(self).capacity(),
            tail.capacity() == old(self).capacity(),
    {
        let items = self.items.split_off(at);
        assert(items@ =~= old(self)@.skip(at as int));
        ShadowVec { items, capacity: self.capacity }
    }
}

impl<E: Clone> ShadowVec<E> {
    /// Puts a clone of each element of `other` behind the last element.
    pub fn extend_from_slice(&mut self, other: &[E])
        requires
            old(self)@.len() + other@.len() <= old(self).capacity(),
        ensures
            final(self).wf(),
            final(self).capacity() == old(self).capacity(),
            final(self)@.len() == old(self)@.len() + other@.len(),
            final(self)@.take(old(self)@.len() as int) == old(self)@,
            forall|i: int| #![trigger final(self)@[old(self)@.len() + i]]
                0 <= i < other@.len() ==> cloned(other@[i], final(self)@[old(self)@.len() + i]),
    {
        let ghost before = self@;
        let mut i: usize = 0;
        while i < other.len()
            invariant
                i <= other@.len(),
                self.capacity() == old(self).capacity(),
                before == old(self)@,
                before.len() + other@.len() <= self.capacity(),
                self@.len() == before.len() + i,
                self@.take(before.len() as int) == before,
                forall|k: int| #![trigger self@[before.len() + k]]
                    0 <= k < i ==> cloned(other@[k], self@[before.len() + k]),
            decreases other@.len() - i,
        {
            let ghost prior = self@;
            self.items.push(other[i].clone());
            assert(self@.take(before.len() as int) =~= prior.take(before.len() as int));
            assert forall|k: int| #![trigger self@[before.len() + k]] 0 <= k < i + 1 implies cloned(
                other@[k],
                self@[before.len() + k],
            ) by {
                if k < i {
                    assert(self@[before.len() + k] == prior[before.len() + k]);
                }
            }
            i += 1;
        }
    }
}

/// All versions of one record.
pub struct VersionList<Payload> {
    entries: Vec<VersionedEntry<Payload>>,
}

/// Whether a deletion at `del_version` ends the newest entry: it must begin before and end
/// after that version.
pub open spec fn cuttable<Payload>(s: Seq<VersionedEntry<Payload>>, del_version: Version) -> bool {
    s.last().insert_version < del_version < s.last().del_version
}

/// The history that comes out when the entries of `s` are appended anew from the newest to
/// the oldest: the oldest becomes the head and is live.
pub open spec fn turned_over<Payload>(s: Seq<VersionedEntry<Payload>>) -> Seq<
    VersionedEntry<Payload>,
>
    decreases s.len(),
{
    if s.len() == 0 {
        s
    } else if s.len() == 1 {
        seq![s[0].ended(LIVE)]
    } else {
        versioned_entry::appended(
            turned_over(s.drop_first()),
            s[0].insert_version,
            s[0].payload,
        )
    }
}

impl<Payload> VersionList<Payload> {
    /// The history, oldest entry first.
    pub closed spec fn view(&self) -> Seq<VersionedEntry<Payload>> {
        self.entries@
    }

    /// A list without entries.
    pub fn default() -> (list: Self)
        ensures
            list@ == Seq::<VersionedEntry<Payload>>::empty(),
    {
        VersionList { entries: Vec::new() }
    }

    /// A list whose only entry is live since `insert_version`.
    pub fn from(insert_version: Version, payload: Payload) -> (list: Self)
        ensures
            list@ == seq![VersionedEntry { payload, insert_version, del_version: LIVE }],
    {
        Self::new(payload, insert_version)
    }

    /// A list whose only entry is live since `insert_version`.
    pub fn new(payload: Payload, insert_version: Version) -> (list: Self)
        ensures
            list@ == seq![VersionedEntry { payload, insert_version, del_version: LIVE }],
    {
        let mut entries = Vec::new();
        entries.push(VersionedEntry { payload, insert_version, del_version: LIVE });
        VersionList { entries }
    }

    /// An iterator over the entries, newest first.
    pub fn iter(&self) -> (iter: VersionListIterator<'_, Payload>)
        ensures
            iter.wf(),
            iter.entries() == self@,
            iter.rest() == self@.len(),
    {
        VersionListIterator::over(&self.entries)
    }

    /// The newest entry.
    fn head_ref(&self) -> (head: &VersionedEntry<Payload>)
        requires
            self@.len() > 0,
        ensures
            *head == self@.last(),
    {
        &self.entries[self.entries.len() - 1]
    }

    /// The newest entry, to be changed in place.
    fn head_mut(&mut self) -> (head: &mut VersionedEntry<Payload>)
        requires
            old(self)@.len() > 0,
        ensures
            *head == old(self)@.last(),
            final(self)@ == old(self)@.update(old(self)@.len() - 1, *final(head)),
    {
        let at: usize = self.entries.len() - 1;
        &mut self.entries[at]
    }

    /// The number of entries.
    pub fn len(&self) -> (n: usize)
        ensures
            n == self@.len(),
    {
        self.entries.len()
    }

    /// The newest entry that a reader of snapshot `version` may see.
    pub fn find(&self, version: Version) -> (found: Option<&VersionedEntry<Payload>>)
        ensures
            found == (match versioned_entry::newest_visible(self@, version) {
                Some(entry) => Some(&entry),
                None => None,
            }),
    {
        find_visible(&self.entries, version)
    }

    /// Whether the newest entry is live.
    pub fn is_live(&self) -> (r: bool)
        requires
            self@.len() > 0,
        ensures
            r == (self@.last().del_version == LIVE),
    {
        self.head_ref().del_version == LIVE
    }
}

impl<Payload: Clone> VersionList<Payload> {
    /// Puts a live entry on top, ends the entry below if it was live, and hands out a copy of
    /// the payload that was newest before.
    pub fn append(&mut self, insert_version: Version, payload: Payload) -> (before: Payload)
        requires
            old(self)@.len() > 0,
        ensures
            final(self)@ == versioned_entry::appended(old(self)@, insert_version, payload),
            cloned(old(self)@.last().payload, before),
    {
        let before = self.head_ref().payload.clone();
        close_newest(&mut self.entries, insert_version);
        self.entries.push(VersionedEntry { payload, insert_version, del_version: LIVE });
        before
    }

    /// Ends the newest entry at `del_version` and hands out a copy of its payload, if the
    /// entry begins before and ends after that version.
    pub fn delete(&mut self, del_version: Version) -> (ended: Option<Payload>)
        requires
            old(self)@.len() > 0,
        ensures
            cuttable(old(self)@, del_version) ==> {
                &&& final(self)@ == old(self)@.update(
                    old(self)@.len() - 1,
                    old(self)@.last().ended(del_version),
                )
                &&& ended matches Some(p)
                &&& cloned(old(self)@.last().payload, p)
            },
            !cuttable(old(self)@, del_version) ==> ended is None && final(self)@ == old(self)@,
    {
        let head = self.head_mut();
        if head.insert_version < del_version && head.del_version > del_version {
            head.del_version = del_version;
            Some(head.payload.clone())
        } else {
            None
        }
    }

    /// A copy of the newest payload, live or not.
    pub fn newest_payload(&self) -> (payload: Payload)
        requires
            self@.len() > 0,
        ensures
            cloned(self@.last().payload, payload),
    {
        self.head_ref().payload.clone()
    }

    /// A list of its own into which the entries are appended anew, as [`turned_over`] says.
    pub fn clone(&self) -> (list: Self)
        ensures
            exists|s: Seq<VersionedEntry<Payload>>| #[trigger]
                versioned_entry::copies(self@, s) && list@ == turned_over(s),
    {
        let mut iter = self.iter();
        let newest = match iter.next() {
            Some(entry) => entry,
            None => {
                assert(versioned_entry::copies(self@, self@));
                return Self::default();
            },
        };
        let ghost mut rest: int = self@.len() - 1;
        let mut list = Self::new(newest.payload.clone(), newest.insert_version);
        let ghost mut s: Seq<VersionedEntry<Payload>> = seq![
            VersionedEntry {
                payload: list@[0].payload,
                insert_version: newest.insert_version,
                del_version: newest.del_version,
            },
        ];
        assert(list@ =~= turned_over(s));
        assert(versioned_entry::copies(self@.skip(rest), s));
        loop
            invariant
                iter.wf(),
                iter.entries() == self@,
                iter.rest() == rest,
                0 <= rest < self@.len(),
                s.len() == self@.len() - rest,
                versioned_entry::copies(self@.skip(rest), s),
                list@ == turned_over(s),
                list@.len() == s.len(),
            ensures
                versioned_entry::copies(self@, s),
                list@ == turned_over(s),
            decreases rest,
        {
            let entry = match iter.next() {
                Some(entry) => entry,
                None => {
                    assert(self@.skip(0) =~= self@);
                    break;
                },
            };
            let payload = entry.payload.clone();
            proof {
                let copy = VersionedEntry {
                    payload,
                    insert_version: entry.insert_version,
                    del_version: entry.del_version,
                };
                let t = seq![copy] + s;
                assert(t.drop_first() =~= s);
                rest = rest - 1;
                assert(self@.skip(rest) =~= seq![*entry] + self@.skip(rest + 1));
                assert forall|i: int| #![trigger t[i]] 0 <= i < t.len() implies self@.skip(
                    rest,
                )[i].copied(t[i]) by {
                    if i > 0 {
                        assert(t[i] == s[i - 1]);
                        assert(self@.skip(rest)[i] == self@.skip(rest + 1)[i - 1]);
                    }
                }
                s = t;
            }
            let _ = list.append(entry.insert_version, payload);
        }
        list
    }
}

/// The versions of one record.
pub enum VersionIndex {
    VANILLA(VersionList<Payload>),
    SkipList(SkipListImpl),
    DexaBTree(DexaBTree),
}

impl VersionIndex {
    /// The history of the record.
    pub open spec fn view(&self) -> IndexView {
        match self {
            VersionIndex::VANILLA(list) => IndexView::Entries(list@),
            VersionIndex::SkipList(list) => IndexView::Skip(skip_list::skip_contents(*list)),
            VersionIndex::DexaBTree(tree) => IndexView::Tree(tree@),
        }
    }

    /// The structure is sound and, unless it is a tree, holds a version.
    pub open spec fn wf(&self) -> bool {
        match self {
            VersionIndex::VANILLA(list) => list@.len() > 0,
            VersionIndex::SkipList(list) => skip_list::has_last(skip_list::skip_contents(*list)),
            VersionIndex::DexaBTree(tree) => tree.wf(),
        }
    }

    /// The kind of the structure.
    pub open spec fn kind(&self) -> VersionIndexType {
        match self {
            VersionIndex::VANILLA(_) => VersionIndexType::VANILLA,
            VersionIndex::SkipList(_) => VersionIndexType::SkipList,
            VersionIndex::DexaBTree(_) => VersionIndexType::BTree,
        }
    }

    /// The number that the structure gives for its length.
    pub open spec fn size(&self) -> nat {
        match self {
            VersionIndex::VANILLA(list) => list@.len(),
            VersionIndex::SkipList(list) => skip_list::skip_contents(*list).len(),
            VersionIndex::DexaBTree(tree) => (power2::pow2(tree.levels()) - 1) as nat,
        }
    }

    /// An index for a record that was just inserted. There is no kind with a lock or with skip
    /// links between versions here.
    pub fn new(kind: VersionIndexType, payload: Payload, version: Version) -> (index: Self)
        requires
            kind is VANILLA || kind is SkipList || kind is BTree,
        ensures
            index.wf(),
            index.kind() == kind,
            index@ == version_index::VersionIndex::initial(kind, payload, version),
            index matches VersionIndex::DexaBTree(tree) ==> tree.levels() == 1,
    {
        match kind {
            VersionIndexType::SkipList => {
                let list = skip_new(version, payload);
                assert(skip_list::is_last(skip_list::skip_contents(list), version));
                VersionIndex::SkipList(list)
            },
            VersionIndexType::BTree => VersionIndex::DexaBTree(new_btree()),
            _ => VersionIndex::VANILLA(VersionList::new(payload, version)),
        }
    }

    /// The number that the structure gives for its length.
    pub fn len(&self) -> (n: usize)
        requires
            self matches VersionIndex::DexaBTree(tree) ==> tree.levels() < usize::BITS,
        ensures
            n == self.size(),
    {
        match self {
            VersionIndex::VANILLA(list) => list.len(),
            VersionIndex::SkipList(list) => skip_len(list),
            VersionIndex::DexaBTree(tree) => tree_len(tree),
        }
    }

    /// What a search for `version` comes to: in a list of entries the newest that a reader of
    /// the snapshot may see, otherwise the version that was inserted at exactly `version`.
    pub open spec fn sought(&self, version: Version) -> Option<VersionPoint> {
        match self {
            VersionIndex::SkipList(list) => if skip_list::skip_contents(*list).contains_key(
                version,
            ) {
                Some(
                    RecordPoint {
                        key: version,
                        payload: skip_list::skip_contents(*list)[version].payload,
                    },
                )
            } else {
                None
            },
            _ => self@.lookup(version),
        }
    }

    /// Searches for `version`.
    pub fn find(&self, version: Version) -> (found: Option<VersionPoint>)
        requires
            self.wf(),
        ensures
            found == self.sought(version),
    {
        match self {
            VersionIndex::VANILLA(list) => match list.find(version) {
                Some(entry) => Some(RecordPoint::new(entry.insert_version, entry.payload)),
                None => None,
            },
            VersionIndex::SkipList(list) => skip_get(list, version),
            VersionIndex::DexaBTree(tree) => tree_find(tree, version),
        }
    }

    /// Puts a new version on top, ends the version below if it was live, and hands out the
    /// payload that was newest before.
    pub fn append(&mut self, insert_version: Version, payload: Payload) -> (before: Payload)
        requires
            old(self).wf(),
            old(self)@.filled(),
            *old(self) matches VersionIndex::DexaBTree(tree) ==> !version_tree::tree_has(
                tree@,
                insert_version,
            ),
        ensures
            final(self).wf(),
            final(self).kind() == old(self).kind(),
            final(self)@ == old(self)@.appended(insert_version, payload),
            before == old(self)@.newest(),
    {
        match self {
            VersionIndex::VANILLA(list) => list.append(insert_version, payload),
            VersionIndex::SkipList(list) => {
                proof {
                    skip_list::lemma_push_keeps_last(
                        skip_list::skip_contents(*list),
                        insert_version,
                        payload,
                    );
                }
                skip_push(list, insert_version, payload)
            },
            VersionIndex::DexaBTree(tree) => tree_push(tree, insert_version, payload),
        }
    }

    /// Whether a deletion at `del_version` takes effect. In a list of entries it may move the
    /// end of an entry forward.
    pub open spec fn cuts(&self, del_version: Version) -> bool {
        match self {
            VersionIndex::VANILLA(list) => cuttable(list@, del_version),
            _ => self@.deletable(del_version),
        }
    }

    /// The history after a deletion at `del_version`.
    pub open spec fn cut(&self, del_version: Version) -> IndexView {
        match self {
            VersionIndex::VANILLA(list) => if cuttable(list@, del_version) {
                IndexView::Entries(
                    list@.update(list@.len() - 1, list@.last().ended(del_version)),
                )
            } else {
                self@
            },
            _ => self@.deleted(del_version),
        }
    }

    /// Ends the newest version at `del_version` and hands out its payload, if that takes
    /// effect.
    pub fn delete(&mut self, del_version: Version) -> (ended: Option<Payload>)
        requires
            old(self).wf(),
        ensures
            final(self).wf(),
            final(self).kind() == old(self).kind(),
            final(self)@ == old(self).cut(del_version),
            ended == (if old(self).cuts(del_version) {
                Some(old(self)@.newest())
            } else {
                None
            }),
    {
        match self {
            VersionIndex::VANILLA(list) => list.delete(del_version),
            VersionIndex::SkipList(list) => {
                proof {
                    skip_list::lemma_delete_keeps_last(
                        skip_list::skip_contents(*list),
                        del_version,
                    );
                }
                skip_delete(list, del_version)
            },
            VersionIndex::DexaBTree(tree) => tree_delete(tree, del_version),
        }
    }

    /// Whether there is a newest version and it is live.
    pub fn is_live(&self) -> (r: bool)
        requires
            self.wf(),
        ensures
            r == self@.live(),
    {
        match self {
            VersionIndex::VANILLA(list) => list.is_live(),
            VersionIndex::SkipList(list) => skip_is_live(list),
            VersionIndex::DexaBTree(tree) => tree_is_live(tree),
        }
    }

    /// The payload of the newest version.
    pub fn newest_payload(&self) -> (payload: Payload)
        requires
            self.wf(),
            self@.filled(),
        ensures
            payload == self@.newest(),
    {
        match self {
            VersionIndex::VANILLA(list) => list.newest_payload(),
            VersionIndex::SkipList(list) => skip_newest_payload(list),
            VersionIndex::DexaBTree(tree) => tree_newest_payload(tree),
        }
    }

    /// An index of its own with the same history. Lists of entries are turned over.
    pub fn clone(&self) -> (index: Self)
        requires
            self.wf(),
        ensures
            index.wf(),
            index.kind() == self.kind(),
            index@ == (match self {
                VersionIndex::VANILLA(list) => IndexView::Entries(turned_over(list@)),
                _ => self@,
            }),
    {
        match self {
            VersionIndex::VANILLA(list) => {
                let copy = list.clone();
                proof {
                    let s = choose|s: Seq<VersionedEntry<Payload>>| #[trigger]
                        versioned_entry::copies(list@, s) && copy@ == turned_over(s);
                    assert(s =~= list@);
                    lemma_turned_over_len(s);
                }
                VersionIndex::VANILLA(copy)
            },
            VersionIndex::SkipList(list) => VersionIndex::SkipList(skip_clone(list)),
            VersionIndex::DexaBTree(tree) => VersionIndex::DexaBTree(tree_clone(tree)),
        }
    }
}

/// No entry is lost.
pub proof fn lemma_turned_over_len<Payload>(s: Seq<VersionedEntry<Payload>>)
    ensures
        turned_over(s).len() == s.len(),
    decreases s.len(),
{
    if s.len() > 1 {
        lemma_turned_over_len(s.drop_first());
    }
}

/// Entries that are turned over keep their payloads and insert versions, in the opposite order.
/// What was oldest is live, and every other entry ends where the one before it began.
pub proof fn law_turned_over<Payload>(s: Seq<VersionedEntry<Payload>>, i: int)
    requires
        0 <= i < s.len(),
    ensures
        turned_over(s).len() == s.len(),
        turned_over(s)[s.len() - 1 - i].payload == s[i].payload,
        turned_over(s)[s.len() - 1 - i].insert_version == s[i].insert_version,
        i == 0 ==> turned_over(s)[s.len() - 1].del_version == u64::MAX,
        i > 0 && s[i - 1].insert_version < u64::MAX ==> turned_over(s)[s.len() - 1
            - i].del_version == s[i - 1].insert_version,
    decreases s.len(),
{
    lemma_turned_over_len(s);
    if s.len() > 1 {
        let rest = s.drop_first();
        lemma_turned_over_len(rest);
        if i > 0 {
            law_turned_over(rest, i - 1);
            assert(rest[i - 1] == s[i]);
            if i > 1 {
                assert(rest[i - 2] == s[i - 1]);
            }
        }
    }
}

/// A deletion in a list of entries sets the end of the last entry if that begins before and ends
/// after it, be it live or not, and changes nothing else. In the other indexes it takes effect
/// on live records alone.
pub proof fn law_cut(index: VersionIndex, del_version: Version, i: int)
    requires
        index.wf(),
    ensures
        match index@ {
            IndexView::Entries(s) => {
                let last = s[s.len() - 1];
                let d = index.cut(del_version)->Entries_0;
                &&& index.cuts(del_version) == (last.insert_version < del_version
                    < last.del_version)
                &&& index.cut(del_version) is Entries && d.len() == s.len()
                &&& 0 <= i < s.len() ==> {
                    &&& d[i].payload == s[i].payload
                    &&& d[i].insert_version == s[i].insert_version
                    &&& d[i].del_version == if i == s.len() - 1 && last.insert_version
                        < del_version < last.del_version {
                        del_version
                    } else {
                        s[i].del_version
                    }
                }
            },
            _ => {
                &&& index.cut(del_version) == index@.deleted(del_version)
                &&& index.cuts(del_version) == index@.deletable(del_version)
                &&& index.cuts(del_version) ==> index@.live()
            },
        },
{
}

/// A search in a skip list or a tree finds the version that was inserted at exactly the version
/// that is sought, be it deleted, and nothing else.
pub proof fn law_exact_searches(index: VersionIndex, version: Version)
    requires
        index.wf(),
    ensures
        index@ matches IndexView::Skip(m) ==> match index.sought(version) {
            Some(r) => r.key == version && m.contains_key(version) && r.payload
                == m[version].payload,
            None => !m.contains_key(version),
        },
        !(index@ is Skip) ==> index.sought(version) == index@.lookup(version),
{
}

} // verus!
