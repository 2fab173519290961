//! Histories of records whose deletions are versions of their own.
//!
//! A history is a sequence of versions, oldest first. A version without a payload is a
//! tombstone: from there on the record is gone, until a later version brings it back.

use vstd::prelude::*;
use crate::record_model::Version;

verus! {

/// What a node says about its record, without the links.
pub struct NodeVersion<Payload> {
    pub payload: Option<Payload>,
    pub insert_version: Version,
}

/// Insert versions never descend from one version to the next.
pub open spec fn ordered<Payload>(s: Seq<NodeVersion<Payload>>) -> bool {
    forall|i: int, j: int| 0 <= i <= j < s.len() ==> s[i].insert_version <= s[j].insert_version
}

/// The position of the newest of the versions `0..=from` that was inserted at or before
/// `version`, or `-1` if there is none.
pub open spec fn latest_at<Payload>(
    s: Seq<NodeVersion<Payload>>,
    from: int,
    version: Version,
) -> int
    decreases from + 1,
{
    if from < 0 {
        -1
    } else if s[from].insert_version <= version {
        from
    } else {
        latest_at(s, from - 1, version)
    }
}

/// What a reader of snapshot `version` sees of the versions `0..=from`.
pub open spec fn lookup<Payload>(
    s: Seq<NodeVersion<Payload>>,
    from: int,
    version: Version,
    allow_tombstone: bool,
) -> Option<NodeVersion<Payload>> {
    let i = latest_at(s, from, version);
    if i >= 0 && (allow_tombstone || s[i].payload is Some) {
        Some(s[i])
    } else {
        None
    }
}

/// The newest visible version is one of those asked about, and is visible.
pub proof fn lemma_latest_bounds<Payload>(
    s: Seq<NodeVersion<Payload>>,
    from: int,
    version: Version,
)
    requires
        -1 <= from < s.len(),
    ensures
        -1 <= latest_at(s, from, version) <= from,
        latest_at(s, from, version) >= 0 ==> s[latest_at(s, from, version)].insert_version
            <= version,
    decreases from + 1,
{
    if from >= 0 && s[from].insert_version > version {
        lemma_latest_bounds(s, from - 1, version);
    }
}

/// Versions above `low` that are all too new do not change what the newest visible one is.
pub proof fn lemma_latest_skips<Payload>(
    s: Seq<NodeVersion<Payload>>,
    low: int,
    high: int,
    version: Version,
)
    requires
        ordered(s),
        0 <= low <= high < s.len(),
        s[low].insert_version > version,
    ensures
        latest_at(s, high, version) == latest_at(s, low, version),
    decreases high,
{
    if low < high {
        assert(s[low].insert_version <= s[high].insert_version);
        lemma_latest_skips(s, low, high - 1, version);
    }
}

/// The number of versions that are no tombstones.
pub open spec fn live_count<Payload>(s: Seq<NodeVersion<Payload>>) -> nat
    decreases s.len(),
{
    if s.len() == 0 {
        0
    } else {
        live_count(s.drop_last()) + if s.last().payload is Some {
            1nat
        } else {
            0nat
        }
    }
}

/// The position of the newest live version of `0..=from`, or `-1`.
pub open spec fn live_below<Payload>(s: Seq<NodeVersion<Payload>>, from: int) -> int
    decreases from + 1,
{
    if from < 0 {
        -1
    } else if s[from].payload is Some {
        from
    } else {
        live_below(s, from - 1)
    }
}

/// `copy` repeats `s`, with a clone of each payload.
pub open spec fn copies<Payload: Clone>(
    s: Seq<NodeVersion<Payload>>,
    copy: Seq<NodeVersion<Payload>>,
) -> bool {
    &&& copy.len() == s.len()
    &&& forall|i: int| #![trigger copy[i]]
        0 <= i < s.len() ==> {
            &&& copy[i].insert_version == s[i].insert_version
            &&& copied(s[i].payload, copy[i].payload)
        }
}

/// `copy` is a clone of `payload`, and a tombstone if and only if `payload` is one.
pub open spec fn copied<Payload: Clone>(payload: Option<Payload>, copy: Option<Payload>) -> bool {
    match payload {
        Some(p) => copy matches Some(c) && cloned(p, c),
        None => copy is None,
    }
}

/// Above the newest live version there are only tombstones, which count for nothing.
pub proof fn lemma_live_below<Payload>(s: Seq<NodeVersion<Payload>>, from: int)
    requires
        -1 <= from < s.len(),
    ensures
        -1 <= live_below(s, from) <= from,
        live_below(s, from) < 0 ==> live_count(s.take(from + 1)) == 0,
        live_below(s, from) >= 0 ==> {
            &&& s[live_below(s, from)].payload is Some
            &&& live_count(s.take(from + 1)) == live_count(s.take(live_below(s, from))) + 1
        },
    decreases from + 1,
{
    assert(s.take(0) =~= Seq::<NodeVersion<Payload>>::empty());
    if from >= 0 {
        assert(s.take(from + 1).drop_last() =~= s.take(from));
        assert(s.take(from + 1).last() == s[from]);
        if s[from].payload is None {
            lemma_live_below(s, from - 1);
        }
    }
}

/// A reader of the new version or a later one sees what was appended.
pub proof fn law_read_after_append<Payload>(
    s: Seq<NodeVersion<Payload>>,
    appended: NodeVersion<Payload>,
    version: Version,
)
    requires
        version >= appended.insert_version,
        appended.payload is Some,
    ensures
        lookup(s.push(appended), s.len() as int, version, false) == Some(appended),
{
}

/// A reader of an older snapshot sees after an append what it saw before.
pub proof fn law_snapshot_is_stable<Payload>(
    s: Seq<NodeVersion<Payload>>,
    appended: NodeVersion<Payload>,
    version: Version,
    allow_tombstone: bool,
)
    requires
        version < appended.insert_version,
    ensures
        lookup(s.push(appended), s.len() as int, version, allow_tombstone) == lookup(
            s,
            s.len() - 1,
            version,
            allow_tombstone,
        ),
{
    let t = s.push(appended);
    assert(latest_at(t, s.len() as int, version) == latest_at(t, s.len() - 1, version));
    lemma_latest_in_prefix(s, appended, s.len() - 1, version);
    lemma_latest_bounds(s, s.len() - 1, version);
}

/// A reader of the tombstone's version or a later one sees no record.
pub proof fn law_read_after_delete<Payload>(
    s: Seq<NodeVersion<Payload>>,
    deleted: NodeVersion<Payload>,
    version: Version,
)
    requires
        version >= deleted.insert_version,
        deleted.payload is None,
    ensures
        lookup(s.push(deleted), s.len() as int, version, false) is None,
        lookup(s.push(deleted), s.len() as int, version, true) == Some(deleted),
{
}

pub proof fn lemma_latest_in_prefix<Payload>(
    s: Seq<NodeVersion<Payload>>,
    appended: NodeVersion<Payload>,
    from: int,
    version: Version,
)
    requires
        -1 <= from < s.len(),
    ensures
        latest_at(s.push(appended), from, version) == latest_at(s, from, version),
    decreases from + 1,
{
    if from >= 0 {
        lemma_latest_in_prefix(s, appended, from - 1, version);
    }
}

/// Versions above the newest visible one are not visible, and a search may as well start at any
/// of them.
pub proof fn lemma_latest_from<Payload>(
    s: Seq<NodeVersion<Payload>>,
    from: int,
    mid: int,
    version: Version,
)
    requires
        -1 <= mid <= from < s.len(),
        latest_at(s, from, version) <= mid,
    ensures
        latest_at(s, mid, version) == latest_at(s, from, version),
        mid < from ==> s[mid + 1].insert_version > version,
    decreases from - mid,
{
    if mid < from {
        lemma_latest_from(s, from - 1, mid, version);
    }
}

/// Later snapshots see later versions.
pub proof fn lemma_latest_ascends<Payload>(
    s: Seq<NodeVersion<Payload>>,
    from: int,
    earlier: Version,
    later: Version,
)
    requires
        -1 <= from < s.len(),
        earlier <= later,
    ensures
        latest_at(s, from, earlier) <= latest_at(s, from, later),
    decreases from + 1,
{
    if from >= 0 {
        lemma_latest_ascends(s, from - 1, earlier, later);
        lemma_latest_bounds(s, from - 1, earlier);
    }
}

} // verus!
