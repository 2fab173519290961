//! Histories of records whose versions carry their own end.
//!
//! A history is a sequence of entries, oldest first. An entry is visible from the version
//! that inserted it up to, but not including, the version that ended it. The largest version
//! stands for an entry that has not ended.

use vstd::prelude::*;
use crate::record_model::Version;

verus! {

/// The end of an entry that is still live.
pub const LIVE: Version = u64::MAX;

/// One version of a record.
pub struct VersionedEntry<Payload> {
    pub payload: Payload,
    pub insert_version: Version,
    pub del_version: Version,
}

/// Walks the entries of a history from the newest to the oldest.
pub struct VersionListIterator<'a, Payload> {
    entries: &'a Vec<VersionedEntry<Payload>>,
    current: Option<usize>,
}

impl<Payload> VersionedEntry<Payload> {
    /// Whether a reader of snapshot `version` may see the entry.
    pub open spec fn visible(self, version: Version) -> bool {
        self.insert_version <= version < self.del_version
    }

    /// The entry, ended at `del_version`.
    pub open spec fn ended(self, del_version: Version) -> Self {
        VersionedEntry { del_version, ..self }
    }

    /// The two entries agree but for the payload, of which `copy` holds a clone.
    pub open spec fn copied(self, copy: Self) -> bool where Payload: Clone {
        &&& copy.insert_version == self.insert_version
        &&& copy.del_version == self.del_version
        &&& cloned(self.payload, copy.payload)
    }
}

/// The newest entry that a reader of snapshot `version` may see.
pub open spec fn newest_visible<Payload>(
    s: Seq<VersionedEntry<Payload>>,
    version: Version,
) -> Option<VersionedEntry<Payload>>
    decreases s.len(),
{
    if s.len() == 0 {
        None
    } else if s.last().visible(version) {
        Some(s.last())
    } else {
        newest_visible(s.drop_last(), version)
    }
}

/// The history with its newest entry ended at `version`, if that entry was live.
pub open spec fn closed<Payload>(
    s: Seq<VersionedEntry<Payload>>,
    version: Version,
) -> Seq<VersionedEntry<Payload>> {
    if s.len() > 0 && s.last().del_version == LIVE {
        s.update(s.len() - 1, s.last().ended(version))
    } else {
        s
    }
}

/// The history with a live entry on top, whatever the state of the entry below.
pub open spec fn pushed<Payload>(
    s: Seq<VersionedEntry<Payload>>,
    insert_version: Version,
    payload: Payload,
) -> Seq<VersionedEntry<Payload>> {
    s.push(VersionedEntry { payload, insert_version, del_version: LIVE })
}

/// The history with a live entry on top that ends the entry below.
pub open spec fn appended<Payload>(
    s: Seq<VersionedEntry<Payload>>,
    insert_version: Version,
    payload: Payload,
) -> Seq<VersionedEntry<Payload>> {
    pushed(closed(s, insert_version), insert_version, payload)
}

/// Whether a deletion at `del_version` ends the newest entry: it must be live and older.
pub open spec fn deletable<Payload>(
    s: Seq<VersionedEntry<Payload>>,
    del_version: Version,
) -> bool {
    s.last().insert_version < del_version && s.last().del_version == LIVE
}

/// The history after a deletion at `del_version`.
pub open spec fn deleted<Payload>(
    s: Seq<VersionedEntry<Payload>>,
    del_version: Version,
) -> Seq<VersionedEntry<Payload>> {
    if deletable(s, del_version) {
        closed(s, del_version)
    } else {
        s
    }
}

/// Each entry ends no later than its successor begins, and begins no earlier than its
/// predecessor did.
pub open spec fn chained<Payload>(s: Seq<VersionedEntry<Payload>>) -> bool {
    forall|i: int, j: int| #![trigger s[i], s[j]]
        0 <= i < j < s.len() ==> {
            &&& s[i].insert_version <= s[j].insert_version
            &&& s[i].del_version <= s[j].insert_version
        }
}

/// `copy` repeats `s`, with a clone of each payload.
pub open spec fn copies<Payload: Clone>(
    s: Seq<VersionedEntry<Payload>>,
    copy: Seq<VersionedEntry<Payload>>,
) -> bool {
    &&& copy.len() == s.len()
    &&& forall|i: int| #![trigger copy[i]] 0 <= i < s.len() ==> s[i].copied(copy[i])
}

/// The newest entry of a history that a reader of snapshot `version` may see.
pub fn find_visible<Payload>(
    entries: &Vec<VersionedEntry<Payload>>,
    version: Version,
) -> (found: Option<&VersionedEntry<Payload>>)
    ensures
        found == (match newest_visible(entries@, version) {
            Some(entry) => Some(&entry),
            None => None,
        }),
{
    let mut at: usize = entries.len();
    assert(entries@.take(at as int) =~= entries@);
    while at > 0
        invariant
            at <= entries@.len(),
            newest_visible(entries@.take(at as int), version) == newest_visible(entries@, version),
        decreases at,
    {
        let entry = &entries[at - 1];
        assert(entries@.take(at as int).drop_last() =~= entries@.take(at - 1));
        assert(entries@.take(at as int).last() == entry);
        if entry.insert_version <= version && entry.del_version > version {
            return Some(entry);
        }
        at -= 1;
    }
    None
}

/// Ends the newest entry at `version`, if it is live.
pub fn close_newest<Payload>(entries: &mut Vec<VersionedEntry<Payload>>, version: Version)
    ensures
        final(entries)@ == closed(old(entries)@, version),
{
    let n: usize = entries.len();
    if n > 0 && entries[n - 1].del_version == LIVE {
        entries[n - 1].del_version = version;
        assert(entries@ =~= closed(old(entries)@, version));
    }
}

/// Clones a history.
pub fn copy_entries<Payload: Clone>(entries: &Vec<VersionedEntry<Payload>>) -> (copy: Vec<
    VersionedEntry<Payload>,
>)
    ensures
        copies(entries@, copy@),
{
    let mut copy: Vec<VersionedEntry<Payload>> = Vec::new();
    let mut i: usize = 0;
    while i < entries.len()
        invariant
            i <= entries@.len(),
            copies(entries@.take(i as int), copy@),
        decreases entries@.len() - i,
    {
        let entry = &entries[i];
        copy.push(
            VersionedEntry {
                payload: entry.payload.clone(),
                insert_version: entry.insert_version,
                del_version: entry.del_version,
            },
        );
        assert(entries@.take(i + 1) =~= entries@.take(i as int).push(*entry));
        i += 1;
    }
    assert(entries@.take(i as int) =~= entries@);
    copy
}

impl<'a, Payload> VersionListIterator<'a, Payload> {
    /// The history that is walked.
    pub closed spec fn entries(&self) -> Seq<VersionedEntry<Payload>> {
        self.entries@
    }

    /// How many entries are still ahead.
    pub closed spec fn rest(&self) -> int {
        match self.current {
            Some(at) => at + 1,
            None => 0,
        }
    }

    /// The iterator stands on an entry of its history.
    pub closed spec fn wf(&self) -> bool {
        self.current matches Some(at) ==> at < self.entries@.len()
    }

    /// An iterator over a whole history.
    pub fn over(entries: &'a Vec<VersionedEntry<Payload>>) -> (iter: Self)
        ensures
            iter.wf(),
            iter.entries() == entries@,
            iter.rest() == entries@.len(),
    {
        let n: usize = entries.len();
        VersionListIterator {
            entries,
            current: if n == 0 {
                None
            } else {
                Some(n - 1)
            },
        }
    }

    /// The next older entry.
    pub fn next(&mut self) -> (item: Option<&'a VersionedEntry<Payload>>)
        requires
            old(self).wf(),
        ensures
            final(self).wf(),
            final(self).entries() == old(self).entries(),
            old(self).rest() == 0 ==> item is None && final(self).rest() == 0,
            old(self).rest() > 0 ==> {
                &&& item == Some(&old(self).entries()[old(self).rest() - 1])
                &&& final(self).rest() == old(self).rest() - 1
            },
    {
        match self.current.take() {
            Some(at) => {
                self.current = if at > 0 {
                    Some(at - 1)
                } else {
                    None
                };
                Some(&self.entries[at])
            },
            None => None,
        }
    }
}

/// Every snapshot from the new version on sees what was appended. The one exception is the
/// largest version, which stands for no snapshot.
pub proof fn law_read_after_append<Payload>(
    s: Seq<VersionedEntry<Payload>>,
    insert_version: Version,
    payload: Payload,
    version: Version,
)
    requires
        insert_version <= version < LIVE,
    ensures
        newest_visible(appended(s, insert_version, payload), version) == Some(
            VersionedEntry { payload, insert_version, del_version: LIVE },
        ),
        newest_visible(pushed(s, insert_version, payload), version) == Some(
            VersionedEntry { payload, insert_version, del_version: LIVE },
        ),
{
}

/// What a reader sees of two entries is the same.
pub open spec fn same_record<Payload>(
    a: Option<VersionedEntry<Payload>>,
    b: Option<VersionedEntry<Payload>>,
) -> bool {
    match (a, b) {
        (Some(x), Some(y)) => x.payload == y.payload && x.insert_version == y.insert_version,
        (None, None) => true,
        _ => false,
    }
}

/// A reader of an older snapshot sees after an append what it saw before.
pub proof fn law_snapshot_survives_append<Payload>(
    s: Seq<VersionedEntry<Payload>>,
    insert_version: Version,
    payload: Payload,
    version: Version,
)
    requires
        version < insert_version,
    ensures
        same_record(
            newest_visible(appended(s, insert_version, payload), version),
            newest_visible(s, version),
        ),
        newest_visible(pushed(s, insert_version, payload), version) == newest_visible(s, version),
{
    let c = closed(s, insert_version);
    assert(appended(s, insert_version, payload).drop_last() =~= c);
    assert(pushed(s, insert_version, payload).drop_last() =~= s);
    law_snapshot_survives_close(s, insert_version, version);
}

/// A reader of an older snapshot sees after a deletion what it saw before.
pub proof fn law_snapshot_survives_delete<Payload>(
    s: Seq<VersionedEntry<Payload>>,
    del_version: Version,
    version: Version,
)
    requires
        version < del_version,
    ensures
        same_record(newest_visible(deleted(s, del_version), version), newest_visible(s, version)),
{
    law_snapshot_survives_close(s, del_version, version);
}

/// Ending the newest entry changes nothing for the readers of older snapshots.
pub proof fn law_snapshot_survives_close<Payload>(
    s: Seq<VersionedEntry<Payload>>,
    end: Version,
    version: Version,
)
    requires
        version < end,
    ensures
        same_record(newest_visible(closed(s, end), version), newest_visible(s, version)),
{
    let c = closed(s, end);
    if c != s {
        assert(c.drop_last() =~= s.drop_last());
        assert(c.last() == s.last().ended(end));
    }
}

/// After a deletion that took effect, no snapshot from its version on sees the record.
pub proof fn law_read_after_delete<Payload>(
    s: Seq<VersionedEntry<Payload>>,
    del_version: Version,
    version: Version,
)
    requires
        s.len() > 0,
        chained(s),
        deletable(s, del_version),
        del_version <= version,
    ensures
        newest_visible(deleted(s, del_version), version) is None,
{
    let d = deleted(s, del_version);
    assert forall|i: int| 0 <= i < d.len() implies !(#[trigger] d[i]).visible(version) by {
        if i < d.len() - 1 {
            assert(d[i] == s[i]);
            assert(s[i].del_version <= s[s.len() - 1].insert_version);
        }
    }
    lemma_nothing_visible(d, version);
}

proof fn lemma_nothing_visible<Payload>(s: Seq<VersionedEntry<Payload>>, version: Version)
    requires
        forall|i: int| 0 <= i < s.len() ==> !(#[trigger] s[i]).visible(version),
    ensures
        newest_visible(s, version) is None,
    decreases s.len(),
{
    if s.len() > 0 {
        lemma_nothing_visible(s.drop_last(), version);
    }
}

/// Appends in ascending order keep the lifetimes of the entries apart.
pub proof fn law_append_keeps_chain<Payload>(
    s: Seq<VersionedEntry<Payload>>,
    insert_version: Version,
    payload: Payload,
)
    requires
        chained(s),
        s.len() > 0 ==> s.last().insert_version <= insert_version,
        s.len() > 0 && s.last().del_version != LIVE ==> s.last().del_version <= insert_version,
    ensures
        chained(appended(s, insert_version, payload)),
{
    let t = appended(s, insert_version, payload);
    assert forall|i: int, j: int| #![trigger t[i], t[j]] 0 <= i < j < t.len() implies {
        &&& t[i].insert_version <= t[j].insert_version
        &&& t[i].del_version <= t[j].insert_version
    } by {
        assert(t[i].insert_version == s[i].insert_version);
        if i < s.len() - 1 {
            assert(t[i] == s[i]);
            assert(s[i].insert_version <= s[s.len() - 1].insert_version);
            assert(s[i].del_version <= s[s.len() - 1].insert_version);
        }
        if j < s.len() {
            assert(t[j].insert_version == s[j].insert_version);
        }
    }
}

/// Deletions keep the lifetimes of the entries apart.
pub proof fn law_delete_keeps_chain<Payload>(
    s: Seq<VersionedEntry<Payload>>,
    del_version: Version,
)
    requires
        chained(s),
    ensures
        chained(deleted(s, del_version)),
{
    let t = deleted(s, del_version);
    assert forall|i: int, j: int| #![trigger t[i], t[j]] 0 <= i < j < t.len() implies {
        &&& t[i].insert_version <= t[j].insert_version
        &&& t[i].del_version <= t[j].insert_version
    } by {
        assert(t[i] == s[i]);
        assert(t[j].insert_version == s[j].insert_version);
    }
}

/// In a history whose entries have separate lifetimes, at most one entry is visible.
pub proof fn law_one_visible_entry<Payload>(
    s: Seq<VersionedEntry<Payload>>,
    i: int,
    j: int,
    version: Version,
)
    requires
        chained(s),
        0 <= i < s.len(),
        0 <= j < s.len(),
        s[i].visible(version),
        s[j].visible(version),
    ensures
        i == j,
{
    if i < j {
        assert(s[i].del_version <= s[j].insert_version);
    } else if j < i {
        assert(s[j].del_version <= s[i].insert_version);
    }
}

} // verus!
