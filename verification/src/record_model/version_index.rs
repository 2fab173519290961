//! A plain version list that may be empty, and the version index that is built on it.

use vstd::prelude::*;
use vstd::arithmetic::power2;
use crate::record_model::record_point::RecordPoint;
use crate::record_model::v_record_point::VersionIndexType;
use crate::record_model::versioned_entry;
use crate::record_model::versioned_entry::{close_newest, find_visible, LIVE};
use crate::record_model::{Payload, Version};
use crate::version_index::index_view::IndexView;
use crate::version_index::skip_list;
use crate::version_index::skip_list::{
    skip_clone, skip_delete, skip_find, skip_is_live, skip_len, skip_new, skip_newest_payload,
    skip_push, SkipListImpl, VersionPoint,
};
use crate::version_index::version_index;
use crate::version_index::version_tree;
use crate::version_index::version_tree::{
    new_btree, tree_clone, tree_delete, tree_find, tree_is_live, tree_len, tree_newest_payload,
    tree_push, DexaBTree,
};

pub use crate::record_model::versioned_entry::{VersionListIterator, VersionedEntry};

verus! {

/// All versions of one record.
pub struct AtomicVersionList<Payload> {
    entries: Vec<VersionedEntry<Payload>>,
}

impl<Payload> AtomicVersionList<Payload> {
    /// The history, oldest entry first.
    pub closed spec fn view(&self) -> Seq<VersionedEntry<Payload>> {
        self.entries@
    }

    /// A list without entries.
    pub fn default() -> (list: Self)
        ensures
            list@ == Seq::<VersionedEntry<Payload>>::empty(),
    {
        AtomicVersionList { entries: Vec::new() }
    }

    /// A list with one entry, which lasts until `del_version` or is live without one.
    pub fn new(
        payload: Payload,
        insert_version: Version,
        del_version: Option<Version>,
    ) -> (list: Self)
        ensures
            list@ == seq![
                VersionedEntry {
                    payload,
                    insert_version,
                    del_version: match del_version {
                        Some(v) => v,
                        None => LIVE,
                    },
                },
            ],
    {
        let mut list = Self::default();
        list.insert_entry(insert_version, del_version.unwrap_or(LIVE), payload);
        list
    }

    /// An iterator over the entries, newest first.
    pub fn iter(&self) -> (iter: VersionListIterator<'_, Payload>)
        ensures
            iter.wf(),
            iter.entries() == self@,
            iter.rest() == self@.len(),
    {
        VersionListIterator::over(&self.entries)
    }

    /// The newest entry.
    fn head_ref(&self) -> (head: &VersionedEntry<Payload>)
        requires
            self@.len() > 0,
        ensures
            *head == self@.last(),
    {
        &self.entries[self.entries.len() - 1]
    }

    /// The number of entries.
    pub fn len(&self) -> (n: usize)
        ensures
            n == self@.len(),
    {
        self.entries.len()
    }

    /// The newest entry that a reader of snapshot `version` may see.
    pub fn find(&self, version: Version) -> (found: Option<&VersionedEntry<Payload>>)
        ensures
            found == (match versioned_entry::newest_visible(self@, version) {
                Some(entry) => Some(&entry),
                None => None,
            }),
    {
        find_visible(&self.entries, version)
    }

    /// Puts an entry on top, whatever the state of the entry below.
    fn insert_entry(&mut self, insert_version: Version, del_version: Version, payload: Payload)
        ensures
            final(self)@ == old(self)@.push(VersionedEntry { payload, insert_version, del_version }),
    {
        self.entries.push(VersionedEntry { payload, insert_version, del_version });
    }

    /// Whether the newest entry is live.
    pub fn is_live(&self) -> (r: bool)
        requires
            self@.len() > 0,
        ensures
            r == (self@.last().del_version == LIVE),
    {
        self.head_ref().del_version == LIVE
    }
}

impl<Payload: Clone> AtomicVersionList<Payload> {
    /// Puts a live entry on top, ends the entry below if it was live, and hands out a copy of
    /// the payload that was newest before.
    pub fn append(&mut self, insert_version: Version, payload: Payload) -> (before: Payload)
        requires
            old(self)@.len() > 0,
        ensures
            final(self)@ == versioned_entry::appended(old(self)@, insert_version, payload),
            cloned(old(self)@.last().payload, before),
    {
        let before = self.head_ref().payload.clone();
        close_newest(&mut self.entries, insert_version);
        self.insert_entry(insert_version, LIVE, payload);
        before
    }

    /// Ends the newest entry at `del_version` and hands out a copy of its payload, if the
    /// entry is live and was inserted before.
    pub fn delete(&mut self, del_version: Version) -> (ended: Option<Payload>)
        requires
            old(self)@.len() > 0,
        ensures
            final(self)@ == versioned_entry::deleted(old(self)@, del_version),
            versioned_entry::deletable(old(self)@, del_version) ==> {
                &&& ended matches Some(p)
                &&& cloned(old(self)@.last().payload, p)
            },
            !versioned_entry::deletable(old(self)@, del_version) ==> ended is None,
    {
        if self.head_ref().insert_version < del_version && self.is_live() {
            close_newest(&mut self.entries, del_version);
            Some(self.head_ref().payload.clone())
        } else {
            None
        }
    }

    /// A copy of the newest payload, live or not.
    pub fn newest_payload(&self) -> (payload: Payload)
        requires
            self@.len() > 0,
        ensures
            cloned(self@.last().payload, payload),
    {
        self.head_ref().payload.clone()
    }

    /// A list of its own with the same history, rebuilt entry by entry.
    pub fn clone(&self) -> (list: Self)
        ensures
            versioned_entry::copies(self@, list@),
    {
        let mut list = Self::default();
        let mut i: usize = 0;
        while i < self.entries.len()
            invariant
                i <= self.entries@.len(),
                versioned_entry::copies(self@.take(i as int), list@),
            decreases self.entries@.len() - i,
        {
            let entry = &self.entries[i];
            list.insert_entry(entry.insert_version, entry.del_version, entry.payload.clone());
            assert(self@.take(i + 1) =~= self@.take(i as int).push(*entry));
            i += 1;
        }
        assert(self@.take(i as int) =~= self@);
        list
    }
}

/// The versions of one record.
pub enum VersionIndex {
    VANILLA(AtomicVersionList<Payload>),
    SkipList(SkipListImpl),
    SkipListSynced(SkipListImpl),
    DexaBTree(DexaBTree),
}

impl VersionIndex {
    /// The history of the record.
    pub open spec fn view(&self) -> IndexView {
        match self {
            VersionIndex::VANILLA(list) => IndexView::Entries(list@),
            VersionIndex::SkipList(list) => IndexView::Skip(skip_list::skip_contents(*list)),
            VersionIndex::SkipListSynced(list) => IndexView::Skip(skip_list::skip_contents(*list)),
            VersionIndex::DexaBTree(tree) => IndexView::Tree(tree@),
        }
    }

    /// The structure is sound and, unless it is a tree, holds a version.
    pub open spec fn wf(&self) -> bool {
        match self {
            VersionIndex::VANILLA(list) => list@.len() > 0,
            VersionIndex::SkipList(list) => skip_list::has_last(skip_list::skip_contents(*list)),
            VersionIndex::SkipListSynced(list) => skip_list::has_last(
                skip_list::skip_contents(*list),
            ),
            VersionIndex::DexaBTree(tree) => tree.wf(),
        }
    }

    /// The kind of the structure.
    pub open spec fn kind(&self) -> VersionIndexType {
        match self {
            VersionIndex::VANILLA(_) => VersionIndexType::VANILLA,
            VersionIndex::SkipList(_) => VersionIndexType::SkipList,
            VersionIndex::SkipListSynced(_) => VersionIndexType::SkipListSynced,
            VersionIndex::DexaBTree(_) => VersionIndexType::BTree,
        }
    }

    /// The number that the structure gives for its length.
    pub open spec fn size(&self) -> nat {
        match self {
            VersionIndex::VANILLA(list) => list@.len(),
            VersionIndex::SkipList(list) => skip_list::skip_contents(*list).len(),
            VersionIndex::SkipListSynced(list) => skip_list::skip_contents(*list).len(),
            VersionIndex::DexaBTree(tree) => (power2::pow2(tree.levels()) - 1) as nat,
        }
    }

    /// An index for a record that was just inserted. There is no kind with skip links between
    /// versions here.
    pub fn new(kind: VersionIndexType, payload: Payload, version: Version) -> (index: Self)
        requires
            !(kind is VWEAVER || kind is FrugalSkipList),
        ensures
            index.wf(),
            index.kind() == kind,
            index@ == version_index::VersionIndex::initial(kind, payload, version),
            index matches VersionIndex::DexaBTree(tree) ==> tree.levels() == 1,
    {
        match kind {
            VersionIndexType::SkipList => {
                let list = skip_new(version, payload);
                assert(skip_list::is_last(skip_list::skip_contents(list), version));
                VersionIndex::SkipList(list)
            },
            VersionIndexType::SkipListSynced => {
                let list = skip_new(version, payload);
                assert(skip_list::is_last(skip_list::skip_contents(list), version));
                VersionIndex::SkipListSynced(list)
            },
            VersionIndexType::BTree => VersionIndex::DexaBTree(new_btree()),
            _ => VersionIndex::VANILLA(AtomicVersionList::new(payload, version, None)),
        }
    }

    /// The number that the structure gives for its length.
    pub fn len(&self) -> (n: usize)
        requires
            self matches VersionIndex::DexaBTree(tree) ==> tree.levels() < usize::BITS,
        ensures
            n == self.size(),
    {
        match self {
            VersionIndex::VANILLA(list) => list.len(),
            VersionIndex::SkipList(list) => skip_len(list),
            VersionIndex::SkipListSynced(list) => skip_len(list),
            VersionIndex::DexaBTree(tree) => tree_len(tree),
        }
    }

    /// What a reader of snapshot `version` sees.
    pub fn find(&self, version: Version) -> (found: Option<VersionPoint>)
        requires
            self.wf(),
        ensures
            found == self@.lookup(version),
    {
        match self {
            VersionIndex::VANILLA(list) => match list.find(version) {
                Some(entry) => Some(RecordPoint::new(entry.insert_version, entry.payload)),
                None => None,
            },
            VersionIndex::SkipList(list) => skip_find(list, version),
            VersionIndex::SkipListSynced(list) => skip_find(list, version),
            VersionIndex::DexaBTree(tree) => tree_find(tree, version),
        }
    }

    /// Puts a new version on top, ends the version below if it was live, and hands out the
    /// payload that was newest before.
    pub fn append(&mut self, insert_version: Version, payload: Payload) -> (before: Payload)
        requires
            old(self).wf(),
            old(self)@.filled(),
            *old(self) matches VersionIndex::DexaBTree(tree) ==> !version_tree::tree_has(
                tree@,
                insert_version,
            ),
        ensures
            final(self).wf(),
            final(self).kind() == old(self).kind(),
            final(self)@ == old(self)@.appended(insert_version, payload),
            before == old(self)@.newest(),
    {
        match self {
            VersionIndex::VANILLA(list) => list.append(insert_version, payload),
            VersionIndex::SkipList(list) => {
                proof {
                    skip_list::lemma_push_keeps_last(
                        skip_list::skip_contents(*list),
                        insert_version,
                        payload,
                    );
                }
                skip_push(list, insert_version, payload)
            },
            VersionIndex::SkipListSynced(list) => {
                proof {
                    skip_list::lemma_push_keeps_last(
                        skip_list::skip_contents(*list),
                        insert_version,
                        payload,
                    );
                }
                skip_push(list, insert_version, payload)
            },
            VersionIndex::DexaBTree(tree) => tree_push(tree, insert_version, payload),
        }
    }

    /// Ends the newest version at `del_version` and hands out its payload, if that takes
    /// effect.
    pub fn delete(&mut self, del_version: Version) -> (ended: Option<Payload>)
        requires
            old(self).wf(),
        ensures
            final(self).wf(),
            final(self).kind() == old(self).kind(),
            final(self)@ == old(self)@.deleted(del_version),
            ended == (if old(self)@.deletable(del_version) {
                Some(old(self)@.newest())
            } else {
                None
            }),
    {
        match self {
            VersionIndex::VANILLA(list) => list.delete(del_version),
            VersionIndex::SkipList(list) => {
                proof {
                    skip_list::lemma_delete_keeps_last(
                        skip_list::skip_contents(*list),
                        del_version,
                    );
                }
                skip_delete(list, del_version)
            },
            VersionIndex::SkipListSynced(list) => {
                proof {
                    skip_list::lemma_delete_keeps_last(
                        skip_list::skip_contents(*list),
                        del_version,
                    );
                }
                skip_delete(list, del_version)
            },
            VersionIndex::DexaBTree(tree) => tree_delete(tree, del_version),
        }
    }

    /// Whether there is a newest version and it is live.
    pub fn is_live(&self) -> (r: bool)
        requires
            self.wf(),
        ensures
            r == self@.live(),
    {
        match self {
            VersionIndex::VANILLA(list) => list.is_live(),
            VersionIndex::SkipList(list) => skip_is_live(list),
            VersionIndex::SkipListSynced(list) => skip_is_live(list),
            VersionIndex::DexaBTree(tree) => tree_is_live(tree),
        }
    }

    /// The payload of the newest version.
    pub fn newest_payload(&self) -> (payload: Payload)
        requires
            self.wf(),
            self@.filled(),
        ensures
            payload == self@.newest(),
    {
        match self {
            VersionIndex::VANILLA(list) => list.newest_payload(),
            VersionIndex::SkipList(list) => skip_newest_payload(list),
            VersionIndex::SkipListSynced(list) => skip_newest_payload(list),
            VersionIndex::DexaBTree(tree) => tree_newest_payload(tree),
        }
    }

    /// An index of its own with the same history. A skip list behind a lock is copied into one
    /// without.
    pub fn clone(&self) -> (index: Self)
        requires
            self.wf(),
        ensures
            index.wf(),
            index@ == self@,
            index.kind() == (if self.kind() is SkipListSynced {
                VersionIndexType::SkipList
            } else {
                self.kind()
            }),
    {
        match self {
            VersionIndex::VANILLA(list) => {
                let copy = list.clone();
                assert(copy@ =~= list@);
                VersionIndex::VANILLA(copy)
            },
            VersionIndex::SkipList(list) => VersionIndex::SkipList(skip_clone(list)),
            VersionIndex::SkipListSynced(list) => VersionIndex::SkipList(skip_clone(list)),
            VersionIndex::DexaBTree(tree) => VersionIndex::DexaBTree(tree_clone(tree)),
        }
    }
}

} // verus!
