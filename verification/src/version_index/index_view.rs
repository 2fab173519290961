//! What a version index holds, whatever structure keeps it, and the laws that all of them
//! obey.

use vstd::prelude::*;
use crate::page_model::leaf_page;
use crate::record_model::node_versions;
use crate::record_model::node_versions::NodeVersion;
use crate::record_model::record_point::RecordPoint;
use crate::record_model::versioned_entry;
use crate::record_model::versioned_entry::{VersionedEntry, LIVE};
use crate::record_model::v_record_point::RecordInfo;
use crate::record_model::{Payload, Version};
use crate::version_index::skip_list;
use crate::version_index::skip_list::{VersionMap, VersionPoint};
use crate::version_index::version_tree;
use crate::version_index::version_tree::VersionRecord;

verus! {

/// The history of one record.
pub enum IndexView {
    /// Deletions are versions of their own.
    Nodes(Seq<NodeVersion<Payload>>),
    /// Versions carry their end, in the order of insertion.
    Entries(Seq<VersionedEntry<Payload>>),
    /// Versions carry their end, by insert version.
    Skip(VersionMap),
    /// Versions carry their end, by insert version, and are only found by it.
    Tree(Seq<VersionRecord>),
}

impl IndexView {
    /// There is a newest version.
    pub open spec fn filled(self) -> bool {
        match self {
            IndexView::Nodes(s) => s.len() > 0,
            IndexView::Entries(s) => s.len() > 0,
            IndexView::Skip(m) => skip_list::has_last(m),
            IndexView::Tree(s) => s.len() > 0,
        }
    }

    /// What a reader of snapshot `version` sees: the version that it reads, and its payload.
    pub open spec fn lookup(self, version: Version) -> Option<VersionPoint> {
        match self {
            IndexView::Nodes(s) => match node_versions::lookup(s, s.len() - 1, version, false) {
                Some(n) => Some(RecordPoint { key: n.insert_version, payload: n.payload->0 }),
                None => None,
            },
            IndexView::Entries(s) => match versioned_entry::newest_visible(s, version) {
                Some(e) => Some(RecordPoint { key: e.insert_version, payload: e.payload }),
                None => None,
            },
            IndexView::Skip(m) => skip_list::skip_lookup(m, version),
            IndexView::Tree(s) => version_tree::tree_lookup(s, version),
        }
    }

    /// The newest version has not been deleted.
    pub open spec fn live(self) -> bool {
        match self {
            IndexView::Nodes(s) => s.last().payload is Some,
            IndexView::Entries(s) => s.last().del_version == LIVE,
            IndexView::Skip(m) => skip_list::newest(m).live(),
            IndexView::Tree(s) => s.len() > 0 && s.last().payload.live(),
        }
    }

    /// The payload of the newest version.
    pub open spec fn newest(self) -> Payload {
        match self {
            IndexView::Nodes(s) => s.last().payload->0,
            IndexView::Entries(s) => s.last().payload,
            IndexView::Skip(m) => skip_list::newest(m).payload,
            IndexView::Tree(s) => s.last().payload.payload,
        }
    }

    /// A new version on top; one that lasts until it is deleted or replaced, and that ends
    /// the version below except where that was inserted into a list of entries.
    pub open spec fn pushed(self, insert_version: Version, payload: Payload) -> Self {
        match self {
            IndexView::Entries(s) => IndexView::Entries(
                versioned_entry::pushed(s, insert_version, payload),
            ),
            _ => self.appended(insert_version, payload),
        }
    }

    /// A new version on top, which ends the version below.
    pub open spec fn appended(self, insert_version: Version, payload: Payload) -> Self {
        match self {
            IndexView::Nodes(s) => IndexView::Nodes(
                s.push(NodeVersion { payload: Some(payload), insert_version }),
            ),
            IndexView::Entries(s) => IndexView::Entries(
                versioned_entry::appended(s, insert_version, payload),
            ),
            IndexView::Skip(m) => IndexView::Skip(
                skip_list::skip_pushed(m, insert_version, payload),
            ),
            IndexView::Tree(s) => IndexView::Tree(
                version_tree::tree_pushed(s, insert_version, payload),
            ),
        }
    }

    /// Whether a deletion at `del_version` takes effect.
    pub open spec fn deletable(self, del_version: Version) -> bool {
        match self {
            IndexView::Nodes(s) => s.last().payload is Some,
            IndexView::Entries(s) => versioned_entry::deletable(s, del_version),
            IndexView::Skip(m) => skip_list::skip_deletable(m, del_version),
            IndexView::Tree(s) => version_tree::tree_deletable(s, del_version),
        }
    }

    /// The history after a deletion at `del_version`.
    pub open spec fn deleted(self, del_version: Version) -> Self {
        match self {
            IndexView::Nodes(s) => if s.last().payload is Some {
                IndexView::Nodes(
                    s.push(NodeVersion { payload: None, insert_version: del_version }),
                )
            } else {
                self
            },
            IndexView::Entries(s) => IndexView::Entries(versioned_entry::deleted(s, del_version)),
            IndexView::Skip(m) => IndexView::Skip(skip_list::skip_deleted(m, del_version)),
            IndexView::Tree(s) => IndexView::Tree(version_tree::tree_deleted(s, del_version)),
        }
    }

    /// Versions that are searched for in their order were inserted in it.
    pub open spec fn ordered(self) -> bool {
        self matches IndexView::Nodes(s) ==> node_versions::ordered(s)
    }

    /// Nothing happened to the record after `clock`, and what happened to it did so in the
    /// order of the versions.
    pub open spec fn timely(self, clock: Version) -> bool {
        match self {
            IndexView::Nodes(s) => {
                &&& node_versions::ordered(s)
                &&& forall|i: int| 0 <= i < s.len() ==> (#[trigger] s[i]).insert_version <= clock
            },
            IndexView::Entries(s) => {
                &&& versioned_entry::chained(s)
                &&& forall|i: int| 0 <= i < s.len() ==> (#[trigger] s[i]).insert_version <= clock
                &&& s.len() > 0 && s.last().del_version != LIVE ==> s.last().del_version <= clock
            },
            IndexView::Skip(m) => {
                &&& forall|k: u64| #[trigger] m.contains_key(k) ==> k <= clock
                &&& skip_list::has_last(m) && !skip_list::newest(m).live() ==> skip_list::newest(
                    m,
                ).del_version.version->0 <= clock
            },
            IndexView::Tree(s) => {
                &&& leaf_page::sorted(s)
                &&& forall|i: int| 0 <= i < s.len() ==> (#[trigger] s[i]).key <= clock
            },
        }
    }
}

/// Time passes without harm.
pub proof fn law_timely_later(view: IndexView, clock: Version, later: Version)
    requires
        view.timely(clock),
        clock <= later,
    ensures
        view.timely(later),
{
}

/// After an append at a new version, there is a newest version, it is live and is what was
/// appended, and the history is still in order.
pub proof fn law_append(
    view: IndexView,
    insert_version: Version,
    payload: Payload,
    clock: Version,
)
    requires
        view.filled(),
        view.timely(clock),
        clock < insert_version,
    ensures
        view.appended(insert_version, payload).filled(),
        view.appended(insert_version, payload).live(),
        view.appended(insert_version, payload).newest() == payload,
        view.appended(insert_version, payload).timely(insert_version),
{
    match view {
        IndexView::Nodes(s) => {},
        IndexView::Entries(s) => {
            versioned_entry::law_append_keeps_chain(s, insert_version, payload);
            let t = versioned_entry::appended(s, insert_version, payload);
            assert forall|i: int| 0 <= i < t.len() implies (#[trigger] t[i]).insert_version
                <= insert_version by {
                if i < s.len() {
                    assert(t[i].insert_version == s[i].insert_version);
                }
            }
        },
        IndexView::Skip(m) => {
            let t = skip_list::skip_pushed(m, insert_version, payload);
            let last = skip_list::last_key(m);
            assert(skip_list::is_last(m, last));
            assert(skip_list::is_last(t, insert_version));
            skip_list::lemma_last_key(t, insert_version);
            assert(skip_list::has_last(t));
        },
        IndexView::Tree(s) => {
            let c = version_tree::tree_closed(s, insert_version);
            leaf_page::lemma_rank_is(s, insert_version, s.len() as int);
            let t = version_tree::tree_pushed(s, insert_version, payload);
            assert(t =~= c.push(
                RecordPoint { key: insert_version, payload: RecordInfo::fresh(payload) },
            ));
            assert forall|i: int, j: int| 0 <= i < j < t.len() implies t[i].key < t[j].key by {
                assert(t[i].key == s[i].key);
                if j < s.len() {
                    assert(t[j].key == s[j].key);
                    assert(leaf_page::sorted(s));
                }
            }
        },
    }
}

/// After a push at a new version onto a record that was deleted, there is a newest version,
/// it is live and is what was pushed, and the history is still in order.
pub proof fn law_push(
    view: IndexView,
    insert_version: Version,
    payload: Payload,
    clock: Version,
)
    requires
        view.filled(),
        view.timely(clock),
        !view.live(),
        clock < insert_version,
    ensures
        view.pushed(insert_version, payload) == view.appended(insert_version, payload),
        view.pushed(insert_version, payload).filled(),
        view.pushed(insert_version, payload).live(),
        view.pushed(insert_version, payload).newest() == payload,
        view.pushed(insert_version, payload).timely(insert_version),
{
    law_append(view, insert_version, payload, clock);
}

/// A deletion at a new version takes effect if and only if the newest version was live. Then
/// it is live no more, and the history is still in order.
pub proof fn law_delete(view: IndexView, del_version: Version, clock: Version)
    requires
        view.filled(),
        view.timely(clock),
        clock < del_version < LIVE,
    ensures
        view.deletable(del_version) == view.live(),
        view.deleted(del_version).filled(),
        !view.deleted(del_version).live(),
        view.deleted(del_version).timely(del_version),
{
    match view {
        IndexView::Nodes(s) => {},
        IndexView::Entries(s) => {
            let d = versioned_entry::deleted(s, del_version);
            assert forall|i: int| 0 <= i < d.len() implies (#[trigger] d[i]).insert_version
                <= del_version by {
                assert(d[i].insert_version == s[i].insert_version);
            }
            versioned_entry::law_delete_keeps_chain(s, del_version);
        },
        IndexView::Skip(m) => {
            let d = skip_list::skip_deleted(m, del_version);
            let last = skip_list::last_key(m);
            assert(skip_list::is_last(m, last));
            assert(skip_list::is_last(d, last));
            skip_list::lemma_last_key(d, last);
            assert(skip_list::has_last(d));
        },
        IndexView::Tree(s) => {
            let d = version_tree::tree_deleted(s, del_version);
            assert forall|i: int, j: int| 0 <= i < j < d.len() implies d[i].key < d[j].key by {
                assert(s[i].key < s[j].key);
                assert(d[i].key == s[i].key);
                assert(d[j].key == s[j].key);
            }
        },
    }
}

/// A reader of a snapshot that is older than an append sees the same before and after it.
pub proof fn law_snapshot_survives_append(
    view: IndexView,
    insert_version: Version,
    payload: Payload,
    clock: Version,
    version: Version,
)
    requires
        view.filled(),
        view.timely(clock),
        clock < insert_version,
        version < insert_version,
    ensures
        view.appended(insert_version, payload).lookup(version) == view.lookup(version),
        view.pushed(insert_version, payload).lookup(version) == view.lookup(version),
{
    match view {
        IndexView::Nodes(s) => {
            node_versions::law_snapshot_is_stable(
                s,
                NodeVersion { payload: Some(payload), insert_version },
                version,
                false,
            );
        },
        IndexView::Entries(s) => {
            versioned_entry::law_snapshot_survives_append(s, insert_version, payload, version);
        },
        IndexView::Skip(m) => {
            skip_list::law_snapshot_survives_push(m, insert_version, payload, version);
        },
        IndexView::Tree(s) => {
            let t = version_tree::tree_pushed(s, insert_version, payload);
            law_append(view, insert_version, payload, clock);
            leaf_page::lemma_rank_is(s, insert_version, s.len() as int);
            lemma_tree_agrees(s, t, version);
        },
    }
}

/// A reader of a snapshot that is older than a deletion sees the same before and after it.
pub proof fn law_snapshot_survives_delete(
    view: IndexView,
    del_version: Version,
    clock: Version,
    version: Version,
)
    requires
        view.filled(),
        view.timely(clock),
        clock < del_version < LIVE,
        version < del_version,
    ensures
        view.deleted(del_version).lookup(version) == view.lookup(version),
{
    match view {
        IndexView::Nodes(s) => {
            node_versions::law_snapshot_is_stable(
                s,
                NodeVersion { payload: None, insert_version: del_version },
                version,
                false,
            );
        },
        IndexView::Entries(s) => {
            versioned_entry::law_snapshot_survives_delete(s, del_version, version);
        },
        IndexView::Skip(m) => {
            skip_list::law_snapshot_survives_close(m, del_version, version);
        },
        IndexView::Tree(s) => {
            let t = version_tree::tree_deleted(s, del_version);
            law_delete(view, del_version, clock);
            lemma_tree_agrees(s, t, version);
        },
    }
}

/// A tree with the same payloads for the old versions, and only later versions besides, looks
/// the same to the readers of older snapshots.
proof fn lemma_tree_agrees(s: Seq<VersionRecord>, t: Seq<VersionRecord>, version: Version)
    requires
        leaf_page::sorted(s),
        leaf_page::sorted(t),
        s.len() <= t.len(),
        forall|i: int| #![trigger t[i]]
            0 <= i < s.len() ==> t[i].key == s[i].key && t[i].payload.payload
                == s[i].payload.payload,
        forall|i: int| s.len() <= i < t.len() ==> (#[trigger] t[i]).key > version,
    ensures
        version_tree::tree_lookup(t, version) == version_tree::tree_lookup(s, version),
{
    leaf_page::lemma_rank(s, version);
    let r = leaf_page::rank(s, version);
    assert forall|i: int| 0 <= i < r implies (#[trigger] t[i]).key < version by {
        assert(s[i].key < version);
    }
    assert forall|i: int| r <= i < t.len() implies (#[trigger] t[i]).key >= version by {
        if i < s.len() {
            assert(s[i].key >= version);
        }
    }
    leaf_page::lemma_rank_is(t, version, r);
    if r < s.len() {
        assert(t[r].key == s[r].key);
    } else if r < t.len() {
        assert(t[r].key > version);
    }
}

/// Every snapshot from an append on sees what was appended, until the record is changed again.
/// Lists of entries show nothing to the largest snapshot, and trees only show a version to the
/// snapshot of its own.
pub proof fn law_read_after_append(
    view: IndexView,
    insert_version: Version,
    payload: Payload,
    clock: Version,
    version: Version,
)
    requires
        view.filled(),
        view.timely(clock),
        clock < insert_version <= version,
        view is Entries ==> version < LIVE,
        view is Tree ==> version == insert_version,
    ensures
        view.appended(insert_version, payload).lookup(version) == Some(
            RecordPoint { key: insert_version, payload },
        ),
        view.pushed(insert_version, payload).lookup(version) == Some(
            RecordPoint { key: insert_version, payload },
        ),
{
    match view {
        IndexView::Nodes(s) => {
            node_versions::law_read_after_append(
                s,
                NodeVersion { payload: Some(payload), insert_version },
                version,
            );
        },
        IndexView::Entries(s) => {
            versioned_entry::law_read_after_append(s, insert_version, payload, version);
        },
        IndexView::Skip(m) => {
            let last = skip_list::last_key(m);
            assert(skip_list::is_last(m, last));
            skip_list::law_read_after_push(m, insert_version, payload, version);
        },
        IndexView::Tree(s) => {
            let t = version_tree::tree_pushed(s, insert_version, payload);
            law_append(view, insert_version, payload, clock);
            leaf_page::lemma_rank_is(s, insert_version, s.len() as int);
            leaf_page::lemma_rank_is(t, insert_version, s.len() as int);
        },
    }
}

/// No snapshot from a deletion on sees the record, until it is brought back. Trees are no
/// exception only because no version was inserted at the time of the deletion: they still show
/// the older versions to the snapshots of those.
pub proof fn law_read_after_delete(
    view: IndexView,
    del_version: Version,
    clock: Version,
    version: Version,
)
    requires
        view.filled(),
        view.timely(clock),
        view.live(),
        clock < del_version <= version,
        del_version < LIVE,
    ensures
        view.deleted(del_version).lookup(version) is None,
{
    law_delete(view, del_version, clock);
    match view {
        IndexView::Nodes(s) => {
            node_versions::law_read_after_delete(
                s,
                NodeVersion { payload: None, insert_version: del_version },
                version,
            );
        },
        IndexView::Entries(s) => {
            versioned_entry::law_read_after_delete(s, del_version, version);
        },
        IndexView::Skip(m) => {
            skip_list::law_read_after_delete(m, del_version, version);
        },
        IndexView::Tree(s) => {
            let t = version_tree::tree_deleted(s, del_version);
            leaf_page::lemma_rank(t, version);
            let r = leaf_page::rank(t, version);
            if r < t.len() {
                assert(t[r].key == s[r].key);
            }
        },
    }
}

/// Where no entry is visible, none is found.
proof fn lemma_none_visible(s: Seq<VersionedEntry<Payload>>, version: Version)
    requires
        forall|i: int| 0 <= i < s.len() ==> !(#[trigger] s[i]).visible(version),
    ensures
        versioned_entry::newest_visible(s, version) is None,
    decreases s.len(),
{
    if s.len() > 0 {
        assert(!s[s.len() - 1].visible(version));
        assert forall|i: int| 0 <= i < s.drop_last().len() implies !(
        #[trigger] s.drop_last()[i]).visible(version) by {
            assert(s.drop_last()[i] == s[i]);
        }
        lemma_none_visible(s.drop_last(), version);
    }
}

/// A record is live if and only if the snapshots from the present on show it, and what they show
/// is its newest payload. Trees are left out: they show a version to no snapshot but its own.
pub proof fn law_live_is_visible(view: IndexView, clock: Version, version: Version)
    requires
        view.filled(),
        view.timely(clock),
        clock <= version < LIVE,
        !(view is Tree),
    ensures
        view.live() == (view.lookup(version) is Some),
        view.lookup(version) matches Some(found) ==> found.payload == view.newest(),
{
    match view {
        IndexView::Nodes(s) => {},
        IndexView::Entries(s) => {
            let last = s.len() - 1;
            if s[last].del_version != LIVE {
                assert forall|i: int| 0 <= i < s.len() implies !(#[trigger] s[i]).visible(
                    version,
                ) by {
                    if i < last {
                        assert(s[i].del_version <= s[last].insert_version);
                    }
                }
                lemma_none_visible(s, version);
            }
        },
        IndexView::Skip(m) => {
            let last = skip_list::last_key(m);
            assert(skip_list::is_last(m, last));
            assert(skip_list::is_last_at(m, last, version));
            let found = choose|key: u64| skip_list::is_last_at(m, key, version);
            assert(skip_list::is_last_at(m, found, version));
            assert(found == last);
        },
        IndexView::Tree(s) => {},
    }
}

} // verus!
