//! A plain version list.

use vstd::prelude::*;
use crate::record_model::versioned_entry;
use crate::record_model::versioned_entry::{close_newest, find_visible, LIVE};
use crate::record_model::Version;

pub use crate::record_model::versioned_entry::{VersionListIterator, VersionedEntry};

verus! {

/// All versions of one record.
pub struct AtomicVersionList<Payload> {
    entries: Vec<VersionedEntry<Payload>>,
}

/// The history that comes out when the oldest entry of `s` is taken over as it is and every
/// later one is appended anew: each ends where its successor begins, and the newest is live.
pub open spec fn replayed<Payload>(s: Seq<VersionedEntry<Payload>>) -> Seq<VersionedEntry<Payload>>
    decreases s.len(),
{
    if s.len() <= 1 {
        s
    } else {
        versioned_entry::appended(
            replayed(s.drop_last()),
            s.last().insert_version,
            s.last().payload,
        )
    }
}

/// No entry is lost.
pub proof fn lemma_replayed_len<Payload>(s: Seq<VersionedEntry<Payload>>)
    ensures
        replayed(s).len() == s.len(),
    decreases s.len(),
{
    if s.len() > 1 {
        lemma_replayed_len(s.drop_last());
    }
}

/// Entries that are appended anew keep their payloads and insert versions. The last one is live,
/// each one before it ends where the next one begins, and the oldest keeps its end if it had one.
pub proof fn law_replayed<Payload>(s: Seq<VersionedEntry<Payload>>, i: int)
    requires
        0 <= i < s.len(),
    ensures
        replayed(s).len() == s.len(),
        replayed(s)[i].payload == s[i].payload,
        replayed(s)[i].insert_version == s[i].insert_version,
        s.len() > 1 && i == s.len() - 1 ==> replayed(s)[i].del_version == u64::MAX,
        0 < i < s.len() - 1 && s[i + 1].insert_version < u64::MAX ==> replayed(s)[i].del_version
            == s[i + 1].insert_version,
        i == 0 && s[0].del_version < u64::MAX ==> replayed(s)[0].del_version == s[0].del_version,
        i == 0 && s[0].del_version == u64::MAX && s.len() > 1 && s[1].insert_version < u64::MAX
            ==> replayed(s)[0].del_version == s[1].insert_version,
        s.len() == 1 ==> replayed(s) == s,
    decreases s.len(),
{
    lemma_replayed_len(s);
    if s.len() > 1 {
        let front = s.drop_last();
        lemma_replayed_len(front);
        if i < front.len() {
            law_replayed(front, i);
            assert(front[i] == s[i]);
            if i < front.len() - 1 {
                assert(front[i + 1] == s[i + 1]);
            }
        }
    }
}

impl<Payload> AtomicVersionList<Payload> {
    /// The history, oldest entry first.
    pub closed spec fn view(&self) -> Seq<VersionedEntry<Payload>> {
        self.entries@
    }

    /// A list with one entry, which lasts until `del_version` or is live without one.
    pub fn new(
        payload: Payload,
        insert_version: Version,
        del_version: Option<Version>,
    ) -> (list: Self)
        ensures
            list@ == seq![
                VersionedEntry {
                    payload,
                    insert_version,
                    del_version: match del_version {
                        Some(v) => v,
                        None => LIVE,
                    },
                },
            ],
    {
        let mut entries = Vec::new();
        entries.push(
            VersionedEntry { payload, insert_version, del_version: del_version.unwrap_or(LIVE) },
        );
        AtomicVersionList { entries }
    }

    /// An iterator over the entries, newest first.
    pub fn iter(&self) -> (iter: VersionListIterator<'_, Payload>)
        ensures
            iter.wf(),
            iter.entries() == self@,
            iter.rest() == self@.len(),
    {
        VersionListIterator::over(&self.entries)
    }

    /// The number of entries.
    pub fn len(&self) -> (n: usize)
        ensures
            n == self@.len(),
    {
        self.entries.len()
    }

    /// The newest entry that a reader of snapshot `version` may see.
    pub fn find(&self, version: Version) -> (found: Option<&VersionedEntry<Payload>>)
        ensures
            found == (match versioned_entry::newest_visible(self@, version) {
                Some(entry) => Some(&entry),
                None => None,
            }),
    {
        find_visible(&self.entries, version)
    }

    /// Puts a live entry on top and ends the entry below if it was live.
    pub fn push(&mut self, insert_version: Version, payload: Payload)
        requires
            old(self)@.len() > 0,
        ensures
            final(self)@ == versioned_entry::appended(old(self)@, insert_version, payload),
    {
        self.append(insert_version, payload);
    }

    /// Puts a live entry on top and ends the entry below if it was live.
    pub fn append(&mut self, insert_version: Version, payload: Payload)
        requires
            old(self)@.len() > 0,
        ensures
            final(self)@ == versioned_entry::appended(old(self)@, insert_version, payload),
    {
        close_newest(&mut self.entries, insert_version);
        self.entries.push(VersionedEntry { payload, insert_version, del_version: LIVE });
    }

    /// Ends the newest entry at `del_version`, if it is live and was inserted before.
    pub fn delete(&mut self, del_version: Version)
        requires
            old(self)@.len() > 0,
        ensures
            final(self)@ == versioned_entry::deleted(old(self)@, del_version),
    {
        let head: usize = self.entries.len() - 1;
        if self.entries[head].insert_version < del_version {
            close_newest(&mut self.entries, del_version);
        }
    }

    /// Whether the newest entry is live.
    pub fn is_live(&self) -> (r: bool)
        requires
            self@.len() > 0,
        ensures
            r == (self@.last().del_version == LIVE),
    {
        self.entries[self.entries.len() - 1].del_version == LIVE
    }
}

impl<Payload: Clone> AtomicVersionList<Payload> {
    /// A copy of the newest payload, live or not.
    pub fn newest_payload(&self) -> (payload: Payload)
        requires
            self@.len() > 0,
        ensures
            cloned(self@.last().payload, payload),
    {
        self.entries[self.entries.len() - 1].payload.clone()
    }

    /// A list of its own into which the entries are appended anew, as [`replayed`] says.
    pub fn clone(&self) -> (list: Self)
        requires
            self@.len() > 0,
        ensures
            exists|s: Seq<VersionedEntry<Payload>>| #[trigger]
                versioned_entry::copies(self@, s) && list@ == replayed(s),
    {
        let oldest = &self.entries[0];
        let del_version = if oldest.del_version == LIVE {
            None
        } else {
            Some(oldest.del_version)
        };
        let mut list = Self::new(oldest.payload.clone(), oldest.insert_version, del_version);
        let ghost mut s: Seq<VersionedEntry<Payload>> = list@;
        let mut i: usize = 1;
        while i < self.entries.len()
            invariant
                1 <= i <= self.entries@.len(),
                s.len() == i,
                versioned_entry::copies(self@.take(i as int), s),
                list@ == replayed(s),
                list@.len() == i,
            decreases self.entries@.len() - i,
        {
            let entry = &self.entries[i];
            let payload = entry.payload.clone();
            proof {
                let copy = VersionedEntry {
                    payload,
                    insert_version: entry.insert_version,
                    del_version: entry.del_version,
                };
                assert(self@.take(i + 1) =~= self@.take(i as int).push(*entry));
                assert(s.push(copy).drop_last() =~= s);
                s = s.push(copy);
            }
            list.append(entry.insert_version, payload);
            i += 1;
        }
        assert(self@.take(i as int) =~= self@);
        list
    }
}

} // verus!
