//! What the histories of records promise: which version a snapshot reads, and what a writer
//! changes.

use vstd::prelude::*;
use vstd::arithmetic::power2;
use crate::mvb_version_index::frugal;
use crate::mvb_version_index::frugal::FrugalNodeSt;
use crate::mvb_version_index::version_index as mvb;
use crate::page_model::leaf_page;
use crate::page_model::leaf_page::Keyed;
use crate::record_model::node_versions;
use crate::record_model::node_versions::NodeVersion;
use crate::record_model::record_point::RecordPoint;
use crate::record_model::v_record_point::{RecordInfo, VersionIndexType};
use crate::record_model::versioned_entry;
use crate::record_model::versioned_entry::VersionedEntry;
use crate::record_model::version_index as plain;
use crate::record_model::{Payload, Version};
use crate::utils::shadow_vec;
use crate::version_index::index_view::IndexView;
use crate::version_index::skip_list;
use crate::version_index::skip_list::VersionMap;
use crate::version_index::v_weaver;
use crate::version_index::v_weaver::VWeaverNodeSt;
use crate::version_index::version_index::VersionIndex;
use crate::version_index::version_tree;
use crate::version_index::version_tree::VersionRecord;

verus! {

/// A snapshot reads the last of the entries that were inserted at or before it and end after it,
/// and nothing if there is none.
pub proof fn law_entry_of_a_snapshot<P>(s: Seq<VersionedEntry<P>>, version: Version)
    ensures
        match versioned_entry::newest_visible(s, version) {
            Some(e) => exists|i: int|
                {
                    &&& 0 <= i < s.len()
                    &&& #[trigger] s[i] == e
                    &&& s[i].insert_version <= version < s[i].del_version
                    &&& forall|j: int|
                        i < j < s.len() ==> !((#[trigger] s[j]).insert_version <= version
                            < s[j].del_version)
                },
            None => forall|j: int|
                0 <= j < s.len() ==> !((#[trigger] s[j]).insert_version <= version
                    < s[j].del_version),
        },
    decreases s.len(),
{
    if s.len() > 0 {
        let front = s.drop_last();
        let last = s.len() - 1;
        assert(s[last] == s.last());
        if s.last().visible(version) {
            assert(s[last] == versioned_entry::newest_visible(s, version)->0);
        } else {
            law_entry_of_a_snapshot(front, version);
            match versioned_entry::newest_visible(front, version) {
                Some(e) => {
                    let i = choose|i: int|
                        {
                            &&& 0 <= i < front.len()
                            &&& #[trigger] front[i] == e
                            &&& front[i].insert_version <= version < front[i].del_version
                            &&& forall|j: int|
                                i < j < front.len() ==> !((#[trigger] front[j]).insert_version
                                    <= version < front[j].del_version)
                        };
                    assert(s[i] == e);
                    assert forall|j: int| i < j < s.len() implies !((
                    #[trigger] s[j]).insert_version <= version < s[j].del_version) by {
                        if j < last {
                            assert(front[j] == s[j]);
                        }
                    }
                },
                None => {
                    assert forall|j: int| 0 <= j < s.len() implies !((
                    #[trigger] s[j]).insert_version <= version < s[j].del_version) by {
                        if j < last {
                            assert(front[j] == s[j]);
                        }
                    }
                },
            }
        }
    }
}

/// A new entry has the version and the payload that it was given, and no end. An append ends the
/// entry below where that has not ended, an insertion leaves it, and neither touches any other.
pub proof fn law_new_entry<P>(
    s: Seq<VersionedEntry<P>>,
    insert_version: Version,
    payload: P,
    i: int,
)
    requires
        0 <= i < s.len(),
    ensures
        ({
            let a = versioned_entry::appended(s, insert_version, payload);
            let p = versioned_entry::pushed(s, insert_version, payload);
            let entry = VersionedEntry { payload, insert_version, del_version: u64::MAX };
            &&& a.len() == s.len() + 1 && a.last() == entry
            &&& p.len() == s.len() + 1 && p.last() == entry
            &&& p[i] == s[i]
            &&& a[i].payload == s[i].payload
            &&& a[i].insert_version == s[i].insert_version
            &&& a[i].del_version == if i == s.len() - 1 && s[i].del_version == u64::MAX {
                insert_version
            } else {
                s[i].del_version
            }
        }),
{
}

/// A deletion sets the end of the last entry, if that has none and was inserted before, and
/// changes nothing else.
pub proof fn law_deleted_entry<P>(s: Seq<VersionedEntry<P>>, del_version: Version, i: int)
    requires
        0 <= i < s.len(),
    ensures
        ({
            let d = versioned_entry::deleted(s, del_version);
            &&& d.len() == s.len()
            &&& d[i].payload == s[i].payload
            &&& d[i].insert_version == s[i].insert_version
            &&& d[i].del_version == if i == s.len() - 1 && s[i].del_version == u64::MAX
                && s[i].insert_version < del_version {
                del_version
            } else {
                s[i].del_version
            }
        }),
{
}

/// A snapshot reads the last of the first versions, up to some position, that was inserted at or
/// before it, unless that is a tombstone and none is asked for.
pub proof fn law_node_of_a_snapshot<P>(
    s: Seq<NodeVersion<P>>,
    from: int,
    version: Version,
    allow_tombstone: bool,
    i: int,
)
    requires
        0 <= i <= from < s.len(),
        s[i].insert_version <= version,
        forall|j: int| i < j <= from ==> (#[trigger] s[j]).insert_version > version,
    ensures
        node_versions::latest_at(s, from, version) == i,
        node_versions::lookup(s, from, version, allow_tombstone) == if allow_tombstone
            || s[i].payload is Some {
            Some(s[i])
        } else {
            None
        },
    decreases from,
{
    if i < from {
        assert(s[from].insert_version > version);
        law_node_of_a_snapshot(s, from - 1, version, allow_tombstone, i);
    }
}

/// A snapshot from before the first version reads nothing.
pub proof fn law_no_node_of_a_snapshot<P>(
    s: Seq<NodeVersion<P>>,
    from: int,
    version: Version,
    allow_tombstone: bool,
)
    requires
        -1 <= from < s.len(),
        forall|j: int| 0 <= j <= from ==> (#[trigger] s[j]).insert_version > version,
    ensures
        node_versions::latest_at(s, from, version) == -1,
        node_versions::lookup(s, from, version, allow_tombstone) is None,
    decreases from + 1,
{
    if from >= 0 {
        assert(s[from].insert_version > version);
        law_no_node_of_a_snapshot(s, from - 1, version, allow_tombstone);
    }
}

/// The length of a list of nodes counts the versions that hold a payload, one by one.
pub proof fn law_live_versions_are_counted<P>(s: Seq<NodeVersion<P>>, t: Seq<NodeVersion<P>>)
    ensures
        node_versions::live_count(s + t) == node_versions::live_count(s)
            + node_versions::live_count(t),
        s.len() == 1 ==> node_versions::live_count(s) == if s[0].payload is Some {
            1nat
        } else {
            0nat
        },
        (forall|i: int| 0 <= i < s.len() ==> (#[trigger] s[i]).payload is Some)
            ==> node_versions::live_count(s) == s.len(),
        (forall|i: int| 0 <= i < s.len() ==> (#[trigger] s[i]).payload is None)
            ==> node_versions::live_count(s) == 0,
    decreases s.len() + t.len(),
{
    reveal_with_fuel(node_versions::live_count, 2);
    if t.len() > 0 {
        assert((s + t).drop_last() =~= s + t.drop_last());
        assert((s + t).last() == t.last());
        law_live_versions_are_counted(s, t.drop_last());
    } else {
        assert(s + t =~= s);
        if s.len() > 0 {
            law_live_versions_are_counted(s.drop_last(), t);
            assert(s[s.len() - 1] == s.last());
            assert(forall|i: int|
                0 <= i < s.drop_last().len() ==> #[trigger] s.drop_last()[i] == s[i]);
        }
    }
}

/// A snapshot reads the version with the largest insert version that is not above it, unless
/// that was deleted by then.
pub proof fn law_skip_version_of_a_snapshot(m: VersionMap, version: Version, key: u64)
    requires
        m.contains_key(key),
        key <= version,
        forall|k: u64| #[trigger] m.contains_key(k) && k <= version ==> k <= key,
    ensures
        skip_list::skip_lookup(m, version) == match m[key].del_version.version {
            None => Some(RecordPoint { key, payload: m[key].payload }),
            Some(del) => if version < del {
                Some(RecordPoint { key, payload: m[key].payload })
            } else {
                None
            },
        },
{
    assert(skip_list::is_last_at(m, key, version));
    let other = choose|k: u64| skip_list::is_last_at(m, k, version);
    assert(skip_list::is_last_at(m, other, version));
    assert(other == key);
}

/// A snapshot from before the first version reads nothing.
pub proof fn law_no_skip_version_of_a_snapshot(m: VersionMap, version: Version)
    requires
        forall|k: u64| #[trigger] m.contains_key(k) ==> version < k,
    ensures
        skip_list::skip_lookup(m, version) is None,
{
}

/// The newest version is the one with the largest insert version. A push ends it where it has
/// not ended, and a deletion does so where it is also older than the deletion. A push adds one
/// version, without an end, and nothing else changes.
pub proof fn law_skip_writers(
    m: VersionMap,
    last: u64,
    version: Version,
    payload: Payload,
    k: u64,
)
    requires
        m.contains_key(last),
        forall|j: u64| #[trigger] m.contains_key(j) ==> j <= last,
    ensures
        skip_list::newest(m) == m[last],
        ({
            let p = skip_list::skip_pushed(m, version, payload);
            let d = skip_list::skip_deleted(m, version);
            let ended = m[last].del_version.version is None;
            &&& p.contains_key(k) <==> m.contains_key(k) || k == version
            &&& d.contains_key(k) <==> m.contains_key(k)
            &&& p[version].payload == payload && p[version].del_version.version is None
            &&& m.contains_key(k) && k != version ==> {
                &&& p[k].payload == m[k].payload
                &&& p[k].del_version.version == if k == last && ended {
                    Some(version)
                } else {
                    m[k].del_version.version
                }
            }
            &&& m.contains_key(k) ==> {
                &&& d[k].payload == m[k].payload
                &&& d[k].del_version.version == if k == last && ended && last < version {
                    Some(version)
                } else {
                    m[k].del_version.version
                }
            }
        }),
{
    skip_list::lemma_last_key(m, last);
}

/// A tree of versions is searched for the version that was inserted at exactly the snapshot, be
/// it deleted.
pub proof fn law_tree_version_of_a_snapshot(s: Seq<VersionRecord>, version: Version)
    requires
        leaf_page::sorted(s),
    ensures
        match version_tree::tree_lookup(s, version) {
            Some(r) => r.key == version && exists|i: int|
                0 <= i < s.len() && (#[trigger] s[i]).key == version && s[i].payload.payload
                    == r.payload,
            None => forall|i: int| 0 <= i < s.len() ==> (#[trigger] s[i]).key != version,
        },
{
    leaf_page::lemma_rank(s, version);
    let at = leaf_page::rank(s, version);
    if at < s.len() && s[at].key == version {
    } else {
        assert forall|i: int| 0 <= i < s.len() implies (#[trigger] s[i]).key != version by {
            if i < at {
                assert(s[i].key_of() < version);
            } else {
                assert(s[i].key_of() >= version);
                if i > at {
                    assert(s[at].key_of() < s[i].key_of());
                }
            }
        }
    }
}

/// A push into a tree of versions adds one version, without an end, where its insert version
/// belongs, and ends the one that was newest where that has not ended. Nothing else changes.
pub proof fn law_tree_push(
    s: Seq<VersionRecord>,
    version: Version,
    payload: Payload,
    i: int,
)
    requires
        leaf_page::sorted(s),
        !version_tree::tree_has(s, version),
        0 <= i < s.len(),
    ensures
        ({
            let t = version_tree::tree_pushed(s, version, payload);
            let j = if s[i].key < version {
                i
            } else {
                i + 1
            };
            &&& t.len() == s.len() + 1
            &&& leaf_page::sorted(t)
            &&& exists|n: int|
                0 <= n < t.len() && (#[trigger] t[n]).key == version && t[n].payload.payload
                    == payload && t[n].payload.del_version.version is None
            &&& t[j].key == s[i].key
            &&& t[j].payload.payload == s[i].payload.payload
            &&& t[j].payload.del_version.version == if i == s.len() - 1
                && s[i].payload.del_version.version is None {
                Some(version)
            } else {
                s[i].payload.del_version.version
            }
        }),
{
    leaf_page::lemma_rank(s, version);
    let r = leaf_page::rank(s, version);
    let c = version_tree::tree_closed(s, version);
    let t = version_tree::tree_pushed(s, version, payload);
    let new = RecordPoint { key: version, payload: RecordInfo::fresh(payload) };
    assert(t == c.insert(r, new));
    assert(t[r] == new);
    assert forall|k: int| 0 <= k < s.len() implies #[trigger] c[k].key == s[k].key && (k < r
        <==> s[k].key < version) by {
        if k < r {
            assert(s[k].key_of() < version);
        } else {
            assert(s[k].key_of() >= version);
        }
    }
    assert forall|k: int| 0 <= k < s.len() implies #[trigger] s[k].key != version by {}
    assert forall|a: int, b: int| 0 <= a < b < t.len() implies t[a].key < t[b].key by {
        let x = if a < r { a } else { a - 1 };
        let y = if b < r { b } else { b - 1 };
        if a != r {
            assert(t[a] == c[x]);
            assert(c[x].key == s[x].key);
        }
        if b != r {
            assert(t[b] == c[y]);
            assert(c[y].key == s[y].key);
        }
        if a != r && b != r {
            assert(s[x].key_of() < s[y].key_of());
        }
    }
    assert(c[i].key == s[i].key);
}

/// A deletion in a tree of versions sets the end of the newest version, if that has none and was
/// inserted before, and changes nothing else.
pub proof fn law_tree_deletion(s: Seq<VersionRecord>, del_version: Version, i: int)
    requires
        0 <= i < s.len(),
    ensures
        ({
            let d = version_tree::tree_deleted(s, del_version);
            &&& d.len() == s.len()
            &&& d[i].key == s[i].key
            &&& d[i].payload.payload == s[i].payload.payload
            &&& d[i].payload.del_version.version == if i == s.len() - 1
                && s[i].payload.del_version.version is None && s[i].key < del_version {
                Some(del_version)
            } else {
                s[i].payload.del_version.version
            }
        }),
{
}

/// A deletion takes effect if and only if the record is live and, where versions carry their
/// end, its newest version is older. It then ends the life of the record, and otherwise changes
/// nothing.
pub proof fn law_deletion_takes_effect(view: IndexView, del_version: Version)
    requires
        view.filled(),
    ensures
        view.deletable(del_version) == match view {
            IndexView::Nodes(s) => s.last().payload is Some,
            IndexView::Entries(s) => s.last().del_version == u64::MAX && s.last().insert_version
                < del_version,
            IndexView::Skip(m) => skip_list::newest(m).del_version.version is None
                && skip_list::last_key(m) < del_version,
            IndexView::Tree(s) => s.last().payload.del_version.version is None && s.last().key
                < del_version,
        },
        view.deletable(del_version) ==> view.live(),
        view.deletable(del_version) && del_version < u64::MAX ==> !view.deleted(
            del_version,
        ).live(),
        !view.deletable(del_version) ==> view.deleted(del_version) == view,
{
    if let IndexView::Skip(m) = view {
        let last = skip_list::last_key(m);
        assert(skip_list::is_last(m, last));
        let d = skip_list::skip_deleted(m, del_version);
        assert(skip_list::is_last(d, last));
        skip_list::lemma_last_key(d, last);
    }
}

/// A record that was just inserted is live, and shown by the snapshots from its version on and by
/// no older one. Trees of versions start empty and show nothing.
pub proof fn law_initial_history(
    kind: VersionIndexType,
    payload: Payload,
    insert_version: Version,
    version: Version,
)
    requires
        version < u64::MAX,
    ensures
        ({
            let view = VersionIndex::initial(kind, payload, insert_version);
            &&& view.lookup(version) == if kind is BTree || version < insert_version {
                None
            } else {
                Some(RecordPoint { key: insert_version, payload })
            }
            &&& view.live() == !(kind is BTree)
            &&& !(kind is BTree) ==> view.newest() == payload
        }),
{
    let view = VersionIndex::initial(kind, payload, insert_version);
    reveal_with_fuel(node_versions::latest_at, 2);
    reveal_with_fuel(versioned_entry::newest_visible, 2);
    if let IndexView::Skip(m) = view {
        skip_list::lemma_last_key(m, insert_version);
        if insert_version <= version {
            law_skip_version_of_a_snapshot(m, version, insert_version);
        }
    }
}

/// The newest version decides whether a record is live and which payload is its newest: the last
/// one, or the one with the largest insert version.
pub proof fn law_newest_version(view: IndexView)
    requires
        view.filled(),
    ensures
        match view {
            IndexView::Nodes(s) => {
                &&& view.live() == (s[s.len() - 1].payload is Some)
                &&& s[s.len() - 1].payload matches Some(p) ==> view.newest() == p
            },
            IndexView::Entries(s) => {
                &&& view.live() == (s[s.len() - 1].del_version == u64::MAX)
                &&& view.newest() == s[s.len() - 1].payload
            },
            IndexView::Skip(m) => exists|last: u64|
                {
                    &&& #[trigger] m.contains_key(last)
                    &&& forall|k: u64| #[trigger] m.contains_key(k) ==> k <= last
                    &&& view.live() == (m[last].del_version.version is None)
                    &&& view.newest() == m[last].payload
                },
            IndexView::Tree(s) => {
                &&& view.live() == (s[s.len() - 1].payload.del_version.version is None)
                &&& view.newest() == s[s.len() - 1].payload.payload
            },
        },
{
    if let IndexView::Skip(m) = view {
        assert(skip_list::is_last(m, skip_list::last_key(m)));
        assert(m.contains_key(skip_list::last_key(m)));
    }
}

/// In a list of nodes every writer puts one version on top: the payload, or a tombstone for a
/// deletion of a record that is live.
pub proof fn law_node_writers(s: Seq<NodeVersion<Payload>>, version: Version, payload: Payload)
    requires
        s.len() > 0,
    ensures
        ({
            let view = IndexView::Nodes(s);
            let on_top = IndexView::Nodes(
                s + seq![NodeVersion { payload: Some(payload), insert_version: version }],
            );
            &&& view.appended(version, payload) == on_top
            &&& view.pushed(version, payload) == on_top
            &&& view.deleted(version) == if s.last().payload is Some {
                IndexView::Nodes(s + seq![NodeVersion { payload: None, insert_version: version }])
            } else {
                view
            }
        }),
{
    let new = NodeVersion { payload: Some(payload), insert_version: version };
    let tombstone = NodeVersion { payload: None::<Payload>, insert_version: version };
    assert(s + seq![new] =~= s.push(new));
    assert(s + seq![tombstone] =~= s.push(tombstone));
}

/// A copy of a history has as many versions, inserted and ended at the same versions, with a
/// clone of each payload.
pub proof fn law_copies<P: Clone>(
    s: Seq<VersionedEntry<P>>,
    t: Seq<VersionedEntry<P>>,
    n: Seq<NodeVersion<P>>,
    m: Seq<NodeVersion<P>>,
    i: int,
)
    requires
        versioned_entry::copies(s, t),
        node_versions::copies(n, m),
    ensures
        s.len() == t.len(),
        n.len() == m.len(),
        0 <= i < s.len() ==> {
            &&& t[i].insert_version == s[i].insert_version
            &&& t[i].del_version == s[i].del_version
            &&& cloned(s[i].payload, t[i].payload)
        },
        0 <= i < n.len() ==> {
            &&& m[i].insert_version == n[i].insert_version
            &&& (m[i].payload is Some) == (n[i].payload is Some)
            &&& n[i].payload is Some ==> cloned(n[i].payload->0, m[i].payload->0)
        },
{
    if 0 <= i < s.len() {
        assert(s[i].copied(t[i]));
    }
    if 0 <= i < n.len() {
        assert(node_versions::copied(n[i].payload, m[i].payload));
    }
}

/// In a list whose versions ascend, a search from a position hands out the last version at or
/// below it that was inserted at or before the snapshot, unless that is a tombstone and none is
/// asked for.
pub proof fn law_weaver_search<Key, Payload>(
    nodes: Seq<VWeaverNodeSt<Key, Payload>>,
    from: int,
    version: Version,
    allow_tombstone: bool,
    i: int,
)
    requires
        v_weaver::linked(nodes),
        forall|a: int, b: int|
            0 <= a <= b < nodes.len() ==> nodes[a].insert_version <= nodes[b].insert_version,
        0 <= i <= from < nodes.len(),
        nodes[i].insert_version <= version,
        i < from ==> nodes[i + 1].insert_version > version,
    ensures
        v_weaver::searched(nodes, from, version, allow_tombstone) == if allow_tombstone
            || nodes[i].payload is Some {
            Some(i as usize)
        } else {
            None
        },
{
    let s = v_weaver::versions(nodes);
    assert forall|a: int, b: int| 0 <= a <= b < s.len() implies s[a].insert_version
        <= s[b].insert_version by {
        assert(s[a] == nodes[a].version() && s[b] == nodes[b].version());
    }
    assert forall|j: int| i < j <= from implies (#[trigger] s[j]).insert_version > version by {
        assert(s[j] == nodes[j].version());
        assert(nodes[i + 1].insert_version <= nodes[j].insert_version);
    }
    assert(s[i] == nodes[i].version());
    law_node_of_a_snapshot(s, from, version, allow_tombstone, i);
    v_weaver::lemma_reached_is_latest(nodes, from, version);
}

/// A search for a snapshot from before the first version finds nothing.
pub proof fn law_weaver_search_before_all<Key, Payload>(
    nodes: Seq<VWeaverNodeSt<Key, Payload>>,
    from: int,
    version: Version,
    allow_tombstone: bool,
)
    requires
        v_weaver::linked(nodes),
        forall|a: int| 0 <= a < nodes.len() ==> version < (#[trigger] nodes[a]).insert_version,
        0 <= from < nodes.len(),
    ensures
        v_weaver::searched(nodes, from, version, allow_tombstone) is None,
{
    v_weaver::lemma_reached_in_bounds(nodes, from, version);
}

/// A flat node leads to the node below it by both links. A tower is one level higher than the
/// node below, where the sentinel counts as the level below the lowest, and skips to a node that
/// is at least as high and has only lower ones before it on the way of the skip links.
pub proof fn law_weaver_towers<Key, Payload>(
    nodes: Seq<VWeaverNodeSt<Key, Payload>>,
    payload: Option<Payload>,
    insert_version: Version,
)
    requires
        v_weaver::linked(nodes),
        0 < nodes.len() <= usize::MAX,
    ensures
        ({
            let head = nodes.len() - 1;
            let flat = v_weaver::flat_node(nodes, payload, insert_version);
            let tower = v_weaver::tower_node(nodes, payload, insert_version);
            &&& flat.payload == payload && tower.payload == payload
            &&& flat.insert_version == insert_version && tower.insert_version == insert_version
            &&& flat.next == Some(head as usize) && tower.next == Some(head as usize)
            &&& flat.v_ridgy == Some(head as usize) && flat.level == 0
            &&& tower.level == if nodes.last().level == usize::MAX {
                0int
            } else {
                nodes.last().level + 1
            }
            &&& tower.v_ridgy matches Some(at) && at <= head && nodes[at as int].level
                >= tower.level
            &&& head > 0 ==> tower.v_ridgy->0 < head
        }),
{
    let head = nodes.len() - 1;
    let level = v_weaver::level_above(nodes.last().level);
    lemma_weaver_base(nodes, head, level);
    if head > 0 {
        assert(nodes[head].level < head);
        let j = nodes[head].v_ridgy->0;
        assert(j < head);
        lemma_weaver_base(nodes, j as int, level);
    }
}

/// The skip links lead to a node that is high enough.
proof fn lemma_weaver_base<Key, Payload>(
    nodes: Seq<VWeaverNodeSt<Key, Payload>>,
    from: int,
    level: usize,
)
    requires
        v_weaver::linked(nodes),
        0 <= from < nodes.len(),
    ensures
        0 <= v_weaver::tower_base(nodes, from, level) <= from,
        nodes[v_weaver::tower_base(nodes, from, level)].level >= level,
    decreases from,
{
    if from > 0 && nodes[from].level < level {
        let j = nodes[from].v_ridgy->0;
        assert(j < from);
        lemma_weaver_base(nodes, j as int, level);
    }
}

/// In a list whose versions ascend, a search from a position hands out the last version at or
/// below it that was inserted at or before the snapshot, unless that is a tombstone and none is
/// asked for.
pub proof fn law_frugal_search<Payload>(
    nodes: Seq<FrugalNodeSt<Payload>>,
    from: int,
    version: Version,
    allow_tombstone: bool,
    i: int,
)
    requires
        frugal::linked(nodes),
        forall|a: int, b: int|
            0 <= a <= b < nodes.len() ==> nodes[a].insert_version <= nodes[b].insert_version,
        0 <= i <= from < nodes.len(),
        nodes[i].insert_version <= version,
        i < from ==> nodes[i + 1].insert_version > version,
    ensures
        frugal::searched(nodes, from, version, allow_tombstone) == if allow_tombstone
            || nodes[i].payload is Some {
            Some(nodes[i])
        } else {
            None
        },
{
    let s = frugal::versions(nodes);
    assert forall|a: int, b: int| 0 <= a <= b < s.len() implies s[a].insert_version
        <= s[b].insert_version by {
        assert(s[a] == nodes[a].version() && s[b] == nodes[b].version());
    }
    assert forall|j: int| i < j <= from implies (#[trigger] s[j]).insert_version > version by {
        assert(s[j] == nodes[j].version());
        assert(nodes[i + 1].insert_version <= nodes[j].insert_version);
    }
    assert(s[i] == nodes[i].version());
    law_node_of_a_snapshot(s, from, version, allow_tombstone, i);
    frugal::lemma_reached_is_latest(nodes, from, version);
}

/// A search for a snapshot from before the first version finds nothing.
pub proof fn law_frugal_search_before_all<Payload>(
    nodes: Seq<FrugalNodeSt<Payload>>,
    from: int,
    version: Version,
    allow_tombstone: bool,
)
    requires
        frugal::linked(nodes),
        forall|a: int| 0 <= a < nodes.len() ==> version < (#[trigger] nodes[a]).insert_version,
        0 <= from < nodes.len(),
    ensures
        frugal::searched(nodes, from, version, allow_tombstone) is None,
{
    lemma_frugal_reached(nodes, from, version);
}

/// A flat node leads to the node below it by both links. A tower is one level higher than the
/// node below, where the sentinel counts as the level below the lowest, and skips to a node that
/// is at least as high and has only lower ones before it on the way of the skip links.
pub proof fn law_frugal_towers<Payload>(
    nodes: Seq<FrugalNodeSt<Payload>>,
    payload: Option<Payload>,
    insert_version: Version,
)
    requires
        frugal::linked(nodes),
        0 < nodes.len() <= usize::MAX,
    ensures
        ({
            let head = nodes.len() - 1;
            let flat = frugal::flat_node(nodes, payload, insert_version);
            let tower = frugal::tower_node(nodes, payload, insert_version);
            &&& flat.payload == payload && tower.payload == payload
            &&& flat.insert_version == insert_version && tower.insert_version == insert_version
            &&& flat.next == Some(head as usize) && tower.next == Some(head as usize)
            &&& flat.v_ridgy == Some(head as usize) && flat.level == 0
            &&& tower.level == if nodes.last().level == usize::MAX {
                0int
            } else {
                nodes.last().level + 1
            }
            &&& tower.v_ridgy matches Some(at) && at <= head && nodes[at as int].level
                >= tower.level
            &&& head > 0 ==> tower.v_ridgy->0 < head
        }),
{
    let head = nodes.len() - 1;
    let level = frugal::level_above(nodes.last().level);
    lemma_frugal_base(nodes, head, level);
    if head > 0 {
        assert(nodes[head].level < head);
        let j = nodes[head].v_ridgy->0;
        assert(j < head);
        lemma_frugal_base(nodes, j as int, level);
    }
}

/// A search never leaves the positions below its start.
proof fn lemma_frugal_reached<Payload>(
    nodes: Seq<FrugalNodeSt<Payload>>,
    from: int,
    version: Version,
)
    requires
        0 <= from < nodes.len(),
    ensures
        0 <= frugal::reached(nodes, from, version) <= from,
    decreases from,
{
    if from > 0 && nodes[from].insert_version > version {
        if let Some(j) = nodes[from].v_ridgy {
            if j < from && nodes[j as int].insert_version > version {
                lemma_frugal_reached(nodes, j as int, version);
            } else {
                lemma_frugal_reached(nodes, from - 1, version);
            }
        } else {
            lemma_frugal_reached(nodes, from - 1, version);
        }
    }
}

/// The skip links lead to a node that is high enough.
proof fn lemma_frugal_base<Payload>(
    nodes: Seq<FrugalNodeSt<Payload>>,
    from: int,
    level: usize,
)
    requires
        frugal::linked(nodes),
        0 <= from < nodes.len(),
    ensures
        0 <= frugal::tower_base(nodes, from, level) <= from,
        nodes[frugal::tower_base(nodes, from, level)].level >= level,
    decreases from,
{
    if from > 0 && nodes[from].level < level {
        let j = nodes[from].v_ridgy->0;
        assert(j < from);
        lemma_frugal_base(nodes, j as int, level);
    }
}

/// The positions of the versions that hold a payload.
pub open spec fn live_positions<P>(s: Seq<NodeVersion<P>>) -> Set<int> {
    Set::new(|i: int| 0 <= i < s.len() && s[i].payload is Some)
}

/// The length of a list of nodes is the number of versions that hold a payload.
pub proof fn law_live_count_is_a_number_of_versions<P>(s: Seq<NodeVersion<P>>)
    ensures
        live_positions(s).finite(),
        node_versions::live_count(s) == live_positions(s).len(),
    decreases s.len(),
{
    if s.len() == 0 {
        assert(live_positions(s) =~= Set::<int>::empty());
    } else {
        let front = s.drop_last();
        let last = s.len() - 1;
        law_live_count_is_a_number_of_versions(front);
        assert(s[last] == s.last());
        assert forall|i: int| 0 <= i < last implies #[trigger] front[i] == s[i] by {}
        if s.last().payload is Some {
            assert(live_positions(s) =~= live_positions(front).insert(last));
        } else {
            assert(live_positions(s) =~= live_positions(front));
        }
    }
}

/// The length of an index is the number of its versions: of all in lists of entries and in skip
/// lists, and of those with a payload in lists of nodes. Trees give the number of nodes that a
/// binary tree of their height has.
pub open spec fn sized(view: IndexView, levels: nat, size: nat) -> bool {
    match view {
        IndexView::Nodes(s) => size == live_positions(s).len(),
        IndexView::Entries(s) => size == s.len(),
        IndexView::Skip(m) => size == m.dom().len(),
        IndexView::Tree(s) => size + 1 == power2::pow2(levels),
    }
}

/// The length of an index is [`sized`] for each of the families of indexes.
pub proof fn law_sizes(
    a: VersionIndex,
    b: mvb::VersionIndex,
    c: plain::VersionIndex,
    d: shadow_vec::VersionIndex,
)
    ensures
        sized(
            a@,
            match a {
                VersionIndex::DexaBTree(tree) => tree.levels(),
                _ => 0,
            },
            a.size(),
        ),
        sized(
            b@,
            match b {
                mvb::VersionIndex::DexaBTree(tree) => tree.levels(),
                _ => 0,
            },
            b.size(),
        ),
        sized(
            c@,
            match c {
                plain::VersionIndex::DexaBTree(tree) => tree.levels(),
                _ => 0,
            },
            c.size(),
        ),
        sized(
            d@,
            match d {
                shadow_vec::VersionIndex::DexaBTree(tree) => tree.levels(),
                _ => 0,
            },
            d.size(),
        ),
{
    if let IndexView::Nodes(s) = a@ {
        law_live_count_is_a_number_of_versions(s);
    }
    if let IndexView::Nodes(s) = b@ {
        law_live_count_is_a_number_of_versions(s);
    }
    if let VersionIndex::DexaBTree(tree) = a {
        power2::lemma_pow2_pos(tree.levels());
    }
    if let mvb::VersionIndex::DexaBTree(tree) = b {
        power2::lemma_pow2_pos(tree.levels());
    }
    if let plain::VersionIndex::DexaBTree(tree) = c {
        power2::lemma_pow2_pos(tree.levels());
    }
    if let shadow_vec::VersionIndex::DexaBTree(tree) = d {
        power2::lemma_pow2_pos(tree.levels());
    }
}

/// Where versions were inserted in their order, a search in an index gives what a snapshot reads.
pub proof fn law_searches(a: VersionIndex, b: mvb::VersionIndex, version: Version)
    requires
        a.wf(),
        b.wf(),
        a@.ordered(),
        b@.ordered(),
    ensures
        a.sought(version) == a@.lookup(version),
        b.sought(version) == b@.lookup(version),
{
    if let VersionIndex::VWEAVER(list) = a {
        let last = list.nodes().len() - 1;
        list.lemma_size();
        v_weaver::lemma_reached_is_latest(list.nodes(), last, version);
        node_versions::lemma_latest_bounds(list@, last, version);
    }
    if let VersionIndex::FrugalSkipList(list) = a {
        let last = list.nodes().len() - 1;
        frugal::lemma_reached_is_latest(list.nodes(), last, version);
        node_versions::lemma_latest_bounds(list@, last, version);
    }
    if let mvb::VersionIndex::VWEAVER(list) = b {
        let last = list.nodes().len() - 1;
        list.lemma_size();
        v_weaver::lemma_reached_is_latest(list.nodes(), last, version);
        node_versions::lemma_latest_bounds(list@, last, version);
    }
    if let mvb::VersionIndex::FrugalSkipList(list) = b {
        let last = list.nodes().len() - 1;
        frugal::lemma_reached_is_latest(list.nodes(), last, version);
        node_versions::lemma_latest_bounds(list@, last, version);
    }
}

/// What a snapshot reads of a history is the insert version and the payload of the version that
/// it reads there, by the rules of the structure that keeps the history.
pub proof fn law_snapshot_reads(view: IndexView, version: Version)
    requires
        view.filled(),
    ensures
        match view {
            IndexView::Nodes(s) => {
                let i = node_versions::latest_at(s, s.len() - 1, version);
                view.lookup(version) == if i >= 0 && s[i].payload is Some {
                    Some(RecordPoint { key: s[i].insert_version, payload: s[i].payload->0 })
                } else {
                    None
                }
            },
            IndexView::Entries(s) => match versioned_entry::newest_visible(s, version) {
                Some(e) => view.lookup(version) == Some(
                    RecordPoint { key: e.insert_version, payload: e.payload },
                ),
                None => view.lookup(version) is None,
            },
            IndexView::Skip(m) => view.lookup(version) == skip_list::skip_lookup(m, version),
            IndexView::Tree(s) => view.lookup(version) == version_tree::tree_lookup(s, version),
        },
{
}

/// A writer changes a history by the rules of the structure that keeps it. An insertion differs
/// from an append in lists of entries alone, where it leaves the entry below as it is.
pub proof fn law_history_writers(view: IndexView, version: Version, payload: Payload)
    ensures
        match view {
            IndexView::Nodes(s) => view.pushed(version, payload) == view.appended(
                version,
                payload,
            ),
            IndexView::Entries(s) => {
                &&& view.pushed(version, payload) == IndexView::Entries(
                    versioned_entry::pushed(s, version, payload),
                )
                &&& view.appended(version, payload) == IndexView::Entries(
                    versioned_entry::appended(s, version, payload),
                )
                &&& view.deleted(version) == IndexView::Entries(
                    versioned_entry::deleted(s, version),
                )
            },
            IndexView::Skip(m) => {
                let after = IndexView::Skip(skip_list::skip_pushed(m, version, payload));
                &&& view.pushed(version, payload) == after
                &&& view.appended(version, payload) == after
                &&& view.deleted(version) == IndexView::Skip(skip_list::skip_deleted(m, version))
            },
            IndexView::Tree(s) => {
                let after = IndexView::Tree(version_tree::tree_pushed(s, version, payload));
                &&& view.pushed(version, payload) == after
                &&& view.appended(version, payload) == after
                &&& view.deleted(version) == IndexView::Tree(
                    version_tree::tree_deleted(s, version),
                )
            },
        },
{
}

/// The newest version with a payload up to a position has only tombstones above it.
pub proof fn law_newest_live_version<P>(s: Seq<NodeVersion<P>>, from: int)
    requires
        -1 <= from < s.len(),
    ensures
        ({
            let i = node_versions::live_below(s, from);
            &&& -1 <= i <= from
            &&& i >= 0 ==> s[i].payload is Some
            &&& forall|j: int| i < j <= from ==> (#[trigger] s[j]).payload is None
        }),
    decreases from + 1,
{
    if from >= 0 && s[from].payload is None {
        law_newest_live_version(s, from - 1);
    }
}

/// A search takes a node that is old enough. From one that is too new it goes on at the end of
/// the skip link if the node there is too new as well, and otherwise at the node below.
pub proof fn law_searches_follow_the_links<Key, Payload>(
    w: Seq<VWeaverNodeSt<Key, Payload>>,
    f: Seq<FrugalNodeSt<Payload>>,
    from: int,
    version: Version,
)
    requires
        v_weaver::linked(w),
        frugal::linked(f),
    ensures
        0 <= from < w.len() && w[from].insert_version <= version ==> v_weaver::reached(
            w,
            from,
            version,
        ) == from,
        0 < from < w.len() && w[from].insert_version > version ==> v_weaver::reached(
            w,
            from,
            version,
        ) == v_weaver::reached(
            w,
            if w[w[from].v_ridgy->0 as int].insert_version > version {
                w[from].v_ridgy->0 as int
            } else {
                from - 1
            },
            version,
        ),
        0 <= from < f.len() && f[from].insert_version <= version ==> frugal::reached(
            f,
            from,
            version,
        ) == from,
        0 < from < f.len() && f[from].insert_version > version ==> frugal::reached(
            f,
            from,
            version,
        ) == frugal::reached(
            f,
            if f[f[from].v_ridgy->0 as int].insert_version > version {
                f[from].v_ridgy->0 as int
            } else {
                from - 1
            },
            version,
        ),
{
}

/// The base of a tower is the first node down the skip links that is high enough.
pub proof fn law_tower_bases<Key, Payload>(
    w: Seq<VWeaverNodeSt<Key, Payload>>,
    f: Seq<FrugalNodeSt<Payload>>,
    from: int,
    level: usize,
)
    requires
        v_weaver::linked(w),
        frugal::linked(f),
    ensures
        0 <= from < w.len() && w[from].level >= level ==> v_weaver::tower_base(w, from, level)
            == from,
        0 < from < w.len() && w[from].level < level ==> v_weaver::tower_base(w, from, level)
            == v_weaver::tower_base(w, w[from].v_ridgy->0 as int, level),
        0 <= from < f.len() && f[from].level >= level ==> frugal::tower_base(f, from, level)
            == from,
        0 < from < f.len() && f[from].level < level ==> frugal::tower_base(f, from, level)
            == frugal::tower_base(f, f[from].v_ridgy->0 as int, level),
{
}

/// A copy of a list of nodes keeps the keys, the links and the levels.
pub proof fn law_copied_links<Key, Payload>(
    nodes: Seq<VWeaverNodeSt<Key, Payload>>,
    copy: Seq<VWeaverNodeSt<Key, Payload>>,
    i: int,
)
    requires
        v_weaver::same_links(nodes, copy),
        0 <= i < nodes.len(),
    ensures
        copy.len() == nodes.len(),
        copy[i].key == nodes[i].key,
        copy[i].next == nodes[i].next,
        copy[i].v_ridgy == nodes[i].v_ridgy,
        copy[i].k_ridgy == nodes[i].k_ridgy,
        copy[i].level == nodes[i].level,
{
    let c = copy[i];
}

/// What is found in an index whose versions were inserted in their order is what the snapshot
/// reads of the history, and what is told of its newest version is so.
pub proof fn law_index_results(
    a: &VersionIndex,
    b: &mvb::VersionIndex,
    c: &plain::VersionIndex,
    version: Version,
    found_a: Option<skip_list::VersionPoint>,
    found_b: Option<skip_list::VersionPoint>,
    found_c: Option<skip_list::VersionPoint>,
    live: bool,
    newest: Payload,
)
    requires
        a.wf(),
        b.wf(),
        c.wf(),
        a@.ordered(),
        b@.ordered(),
        call_ensures(VersionIndex::find, (a, version), found_a),
        call_ensures(mvb::VersionIndex::find, (b, version), found_b),
        call_ensures(plain::VersionIndex::find, (c, version), found_c),
        call_ensures(VersionIndex::is_live, (a,), live),
        call_ensures(VersionIndex::newest_payload, (a,), newest),
    ensures
        found_a == a@.lookup(version),
        found_b == b@.lookup(version),
        found_c == c@.lookup(version),
        live == a@.live(),
        newest == a@.newest(),
{
    law_searches(*a, *b, version);
}

} // verus!
