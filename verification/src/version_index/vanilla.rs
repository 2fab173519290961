//! A plain version list with an atomically published head.

use vstd::prelude::*;
use crate::record_model::versioned_entry;
use crate::record_model::versioned_entry::{close_newest, copy_entries, find_visible, LIVE};
use crate::record_model::Version;
use crate::version_index::head_cell;
use crate::version_index::head_cell::{load_head, new_head, store_head, HeadCell};

pub use crate::record_model::versioned_entry::{VersionListIterator, VersionedEntry};

verus! {

/// All versions of one record. The head cell publishes the position of the newest one.
pub struct AtomicVersionList<Payload> {
    entries: Vec<VersionedEntry<Payload>>,
    head: HeadCell,
}

impl<Payload> AtomicVersionList<Payload> {
    /// The history, oldest entry first.
    pub closed spec fn view(&self) -> Seq<VersionedEntry<Payload>> {
        self.entries@
    }

    /// The published head.
    pub closed spec fn head_cell(&self) -> HeadCell {
        self.head
    }

    /// There is at least one entry, and the head is the newest.
    pub open spec fn wf(&self) -> bool {
        &&& self@.len() > 0
        &&& head_cell::head_position(self.head_cell()) == self@.len() - 1
    }

    /// A list with one entry, which lasts until `del_version` or is live without one.
    pub fn new(
        payload: Payload,
        insert_version: Version,
        del_version: Option<Version>,
    ) -> (list: Self)
        ensures
            list.wf(),
            list@ == seq![
                VersionedEntry {
                    payload,
                    insert_version,
                    del_version: match del_version {
                        Some(v) => v,
                        None => LIVE,
                    },
                },
            ],
    {
        let mut entries = Vec::new();
        entries.push(
            VersionedEntry { payload, insert_version, del_version: del_version.unwrap_or(LIVE) },
        );
        AtomicVersionList { entries, head: new_head(0) }
    }

    /// An iterator over the entries, newest first.
    pub fn iter(&self) -> (iter: VersionListIterator<'_, Payload>)
        ensures
            iter.wf(),
            iter.entries() == self@,
            iter.rest() == self@.len(),
    {
        VersionListIterator::over(&self.entries)
    }

    /// The number of entries.
    pub fn len(&self) -> (n: usize)
        ensures
            n == self@.len(),
    {
        self.entries.len()
    }

    /// The newest entry that a reader of snapshot `version` may see.
    pub fn find(&self, version: Version) -> (found: Option<&VersionedEntry<Payload>>)
        requires
            self.wf(),
        ensures
            found == (match versioned_entry::newest_visible(self@, version) {
                Some(entry) => Some(&entry),
                None => None,
            }),
    {
        find_visible(&self.entries, version)
    }

    /// Puts an entry on top, whatever the state of the entry below.
    fn insert_entry(&mut self, insert_version: Version, del_version: Version, payload: Payload)
        requires
            old(self).wf(),
        ensures
            final(self).wf(),
            final(self)@ == old(self)@.push(VersionedEntry { payload, insert_version, del_version }),
    {
        self.entries.push(VersionedEntry { payload, insert_version, del_version });
        store_head(&mut self.head, self.entries.len() - 1);
    }

    /// Puts a live entry on top and leaves the entry below as it is.
    pub fn push(&mut self, insert_version: Version, payload: Payload)
        requires
            old(self).wf(),
        ensures
            final(self).wf(),
            final(self)@ == versioned_entry::pushed(old(self)@, insert_version, payload),
    {
        self.insert_entry(insert_version, LIVE, payload);
    }

    /// Whether the newest entry is live.
    pub fn is_live(&self) -> (r: bool)
        requires
            self.wf(),
        ensures
            r == (self@.last().del_version == LIVE),
    {
        self.entries[load_head(&self.head)].del_version == LIVE
    }
}

impl AtomicVersionList<u64> {
    /// A list whose only entry ended when it began, so that no reader sees it.
    pub fn default() -> (list: Self)
        ensures
            list.wf(),
            list@ == seq![VersionedEntry { payload: 0u64, insert_version: 0, del_version: 0 }],
    {
        AtomicVersionList::new(0, 0, Some(0))
    }
}

impl<Payload: Clone> AtomicVersionList<Payload> {
    /// Puts a live entry on top, ends the entry below if it was live, and hands out a copy of
    /// the payload that was newest before.
    pub fn append(&mut self, insert_version: Version, payload: Payload) -> (before: Payload)
        requires
            old(self).wf(),
        ensures
            final(self).wf(),
            final(self)@ == versioned_entry::appended(old(self)@, insert_version, payload),
            cloned(old(self)@.last().payload, before),
    {
        let before = self.entries[load_head(&self.head)].payload.clone();
        close_newest(&mut self.entries, insert_version);
        self.insert_entry(insert_version, LIVE, payload);
        before
    }

    /// Ends the newest entry at `del_version` and hands out a copy of its payload, if the
    /// entry is live and was inserted before.
    pub fn delete(&mut self, del_version: Version) -> (ended: Option<Payload>)
        requires
            old(self).wf(),
        ensures
            final(self).wf(),
            final(self)@ == versioned_entry::deleted(old(self)@, del_version),
            versioned_entry::deletable(old(self)@, del_version) ==> {
                &&& ended matches Some(p)
                &&& cloned(old(self)@.last().payload, p)
            },
            !versioned_entry::deletable(old(self)@, del_version) ==> ended is None,
    {
        let head: usize = load_head(&self.head);
        if self.entries[head].insert_version < del_version && self.entries[head].del_version
            == LIVE {
            close_newest(&mut self.entries, del_version);
            Some(self.entries[head].payload.clone())
        } else {
            None
        }
    }

    /// A copy of the newest payload, live or not.
    pub fn newest_payload(&self) -> (payload: Payload)
        requires
            self.wf(),
        ensures
            cloned(self@.last().payload, payload),
    {
        self.entries[load_head(&self.head)].payload.clone()
    }

    /// A list of its own with the same history.
    pub fn clone(&self) -> (list: Self)
        requires
            self.wf(),
        ensures
            list.wf(),
            versioned_entry::copies(self@, list@),
    {
        AtomicVersionList {
            entries: copy_entries(&self.entries),
            head: new_head(load_head(&self.head)),
        }
    }
}

} // verus!
