//! Scans that cross from key to key along the links between versions.

use vstd::prelude::*;
use crate::crud_model::crud_api::NodeVisits;
use crate::page_model::leaf_page;
use crate::page_model::leaf_page::Keyed;
use crate::record_model::node_versions;
use crate::record_model::record_point::RecordPoint;
use crate::record_model::v_record_point::VersionedRecordPoint;
use crate::record_model::{Key, Payload, Version};
use crate::tree::bplus_tree;
use crate::tree::bplus_tree::BPlusTree;
use crate::utils::count;
use crate::utils::interval::Interval;
use crate::version_index::v_weaver;
use crate::version_index::v_weaver::{
    AtomicVWeaverList, KeyRidge, VWeaverKeyRidgyIterator, VWeaverNodeSt, WeaverNodeLink,
};
use crate::version_index::version_index::VersionIndex;
use crate::workload::keys;
use crate::workload::keys::inc_key;

verus! {

/// The nodes of a record; none if its versions are not woven.
pub open spec fn nodes_of(r: VersionedRecordPoint) -> Seq<VWeaverNodeSt<Key, Payload>> {
    match r.version_index {
        VersionIndex::VWEAVER(weaver) => weaver.nodes(),
        _ => Seq::empty(),
    }
}

/// The nodes that a key has.
pub open spec fn nodes_at(s: Seq<VersionedRecordPoint>, key: Key) -> Seq<
    VWeaverNodeSt<Key, Payload>,
> {
    nodes_of(s[leaf_page::rank(s, key)])
}

/// Some key has such a node.
pub open spec fn leads(s: Seq<VersionedRecordPoint>, to: KeyRidge<Key>) -> bool {
    bplus_tree::has_key(s, to.key) && to.node < nodes_at(s, to.key).len()
}

/// A link between keys: it leads from a version that was replaced to a later key, and there to
/// a version that is no older than what the replacement's snapshot shows.
pub open spec fn ridge_ok(
    s: Seq<VersionedRecordPoint>,
    key: Key,
    nodes: Seq<VWeaverNodeSt<Key, Payload>>,
    at: int,
    to: KeyRidge<Key>,
) -> bool {
    &&& key < to.key
    &&& at + 1 < nodes.len()
    &&& leads(s, to)
    &&& to.node >= node_versions::latest_at(
        v_weaver::versions(nodes_at(s, to.key)),
        nodes_at(s, to.key).len() - 1,
        nodes[at + 1].insert_version,
    )
}

/// All links between keys are as they should be.
pub open spec fn woven(s: Seq<VersionedRecordPoint>) -> bool {
    forall|i: int, p: int| #![trigger nodes_of(s[i])[p]]
        0 <= i < s.len() && 0 <= p < nodes_of(s[i]).len() ==> (
        nodes_of(s[i])[p].k_ridgy matches Some(to) ==> ridge_ok(
            s,
            s[i].key,
            nodes_of(s[i]),
            p,
            to,
        ))
}

/// No version of the record is later than `clock`.
pub open spec fn nodes_until(r: VersionedRecordPoint, clock: Version) -> bool {
    forall|p: int|
        0 <= p < nodes_of(r).len() ==> (#[trigger] nodes_of(r)[p]).insert_version <= clock
}

/// A record got one more version, which no link leads to or from.
pub open spec fn grown(
    before: VersionedRecordPoint,
    after: VersionedRecordPoint,
    clock: Version,
) -> bool {
    &&& after.key == before.key
    &&& nodes_of(after).len() == nodes_of(before).len() + 1
    &&& nodes_of(after).drop_last() == nodes_of(before)
    &&& nodes_of(after).last().k_ridgy is None
    &&& nodes_of(after).last().insert_version > clock
}

/// A later version does not change what is latest at an earlier time.
proof fn lemma_latest_in_grown(
    before: Seq<VWeaverNodeSt<Key, Payload>>,
    after: Seq<VWeaverNodeSt<Key, Payload>>,
    version: Version,
)
    requires
        after.len() == before.len() + 1,
        after.drop_last() == before,
        after.last().insert_version > version,
    ensures
        node_versions::latest_at(v_weaver::versions(after), after.len() - 1, version)
            == node_versions::latest_at(v_weaver::versions(before), before.len() - 1, version),
{
    let a = v_weaver::versions(after);
    let b = v_weaver::versions(before);
    let n = after.last().version();
    assert(after =~= before.push(after.last()));
    assert(a =~= b.push(n));
    node_versions::lemma_latest_in_prefix(b, n, before.len() - 1, version);
}

/// Links stay as they should be when a record grows or changes in other ways than in its nodes.
pub proof fn lemma_woven_update(
    s: Seq<VersionedRecordPoint>,
    at: int,
    r: VersionedRecordPoint,
    clock: Version,
)
    requires
        leaf_page::sorted(s),
        woven(s),
        0 <= at < s.len(),
        r.key == s[at].key,
        forall|i: int| 0 <= i < s.len() ==> nodes_until(#[trigger] s[i], clock),
        nodes_of(r) == nodes_of(s[at]) || grown(s[at], r, clock),
    ensures
        woven(s.update(at, r)),
{
    let t = s.update(at, r);
    bplus_tree::lemma_histories_update(s, at, r);
    assert forall|i: int, p: int| #![trigger nodes_of(t[i])[p]]
        0 <= i < t.len() && 0 <= p < nodes_of(t[i]).len() implies (
    nodes_of(t[i])[p].k_ridgy matches Some(to) ==> ridge_ok(
        t,
        t[i].key,
        nodes_of(t[i]),
        p,
        to,
    )) by {
        if let Some(to) = nodes_of(t[i])[p].k_ridgy {
            let ns = nodes_of(s[i]);
            if i == at && nodes_of(r) != ns {
                assert(nodes_of(r).drop_last()[p] == ns[p]);
            }
            assert(p < ns.len());
            assert(ns[p].k_ridgy == Some(to));
            assert(ridge_ok(s, s[i].key, ns, p, to));
            if i == at && nodes_of(r) != ns {
                assert(nodes_of(r).drop_last()[p + 1] == ns[p + 1]);
            }
            assert(nodes_of(t[i])[p + 1] == ns[p + 1]);
            let f = ns[p + 1].insert_version;
            assert(nodes_until(s[i], clock));
            bplus_tree::lemma_histories(s, to.key);
            let j = leaf_page::rank(s, to.key);
            assert(t[j].key == s[j].key);
            bplus_tree::lemma_history_at(t, j);
            assert(bplus_tree::has_key(t, to.key));
            if j == at && nodes_of(r) != nodes_of(s[at]) {
                lemma_latest_in_grown(nodes_of(s[at]), nodes_of(r), f);
            }
        }
    }
}

/// Links stay as they should be when a record comes that has none.
pub proof fn lemma_woven_insert(s: Seq<VersionedRecordPoint>, r: VersionedRecordPoint)
    requires
        leaf_page::sorted(s),
        woven(s),
        !bplus_tree::has_key(s, r.key),
        forall|p: int| 0 <= p < nodes_of(r).len() ==> (#[trigger] nodes_of(r)[p]).k_ridgy is None,
    ensures
        woven(s.insert(leaf_page::rank(s, r.key), r)),
{
    let at = leaf_page::rank(s, r.key);
    bplus_tree::lemma_histories(s, r.key);
    bplus_tree::lemma_histories_insert(s, r);
    let t = s.insert(at, r);
    assert forall|i: int, p: int| #![trigger nodes_of(t[i])[p]]
        0 <= i < t.len() && 0 <= p < nodes_of(t[i]).len() implies (
    nodes_of(t[i])[p].k_ridgy matches Some(to) ==> ridge_ok(
        t,
        t[i].key,
        nodes_of(t[i]),
        p,
        to,
    )) by {
        if let Some(to) = nodes_of(t[i])[p].k_ridgy {
            assert(i != at);
            let k = if i < at {
                i
            } else {
                i - 1
            };
            assert(t[i] == s[k]);
            assert(nodes_of(s[k])[p].k_ridgy == Some(to));
            assert(ridge_ok(s, s[k].key, nodes_of(s[k]), p, to));
            bplus_tree::lemma_histories(s, to.key);
            let j = leaf_page::rank(s, to.key);
            let l = if j < at {
                j
            } else {
                j + 1
            };
            assert(t[l] == s[j]);
            bplus_tree::lemma_history_at(t, l);
            assert(bplus_tree::has_key(t, to.key));
        }
    }
}

/// The nodes that a key has; none if there is no such key.
pub open spec fn own_nodes(s: Seq<VersionedRecordPoint>, key: Key) -> Seq<
    VWeaverNodeSt<Key, Payload>,
> {
    if bplus_tree::has_key(s, key) {
        nodes_at(s, key)
    } else {
        Seq::empty()
    }
}

/// A key has the nodes that it had, with their links, and the nodes that it got have no link to
/// another key.
pub open spec fn kept_at(
    before: Seq<VersionedRecordPoint>,
    after: Seq<VersionedRecordPoint>,
    key: Key,
) -> bool {
    let b = own_nodes(before, key);
    let a = own_nodes(after, key);
    &&& b.len() <= a.len()
    &&& a.take(b.len() as int) == b
    &&& forall|p: int| b.len() <= p < a.len() ==> (#[trigger] a[p]).k_ridgy is None
}

/// All keys have the nodes that they had, with their links, and no other links came.
pub open spec fn links_kept(
    before: Seq<VersionedRecordPoint>,
    after: Seq<VersionedRecordPoint>,
) -> bool {
    forall|key: Key| #[trigger] kept_at(before, after, key)
}

/// Where nothing changes, all links stay.
pub proof fn lemma_links_same(s: Seq<VersionedRecordPoint>)
    ensures
        links_kept(s, s),
{
    assert forall|key: Key| #[trigger] kept_at(s, s, key) by {
        let a = own_nodes(s, key);
        assert(a.take(a.len() as int) =~= a);
    }
}

/// All links stay when a record grows or changes in other ways than in its nodes.
pub proof fn lemma_links_update(
    s: Seq<VersionedRecordPoint>,
    at: int,
    r: VersionedRecordPoint,
    clock: Version,
)
    requires
        leaf_page::sorted(s),
        0 <= at < s.len(),
        r.key == s[at].key,
        nodes_of(r) == nodes_of(s[at]) || grown(s[at], r, clock),
    ensures
        links_kept(s, s.update(at, r)),
{
    let t = s.update(at, r);
    bplus_tree::lemma_histories_update(s, at, r);
    assert forall|key: Key| #[trigger] kept_at(s, t, key) by {
        bplus_tree::lemma_histories(s, key);
        bplus_tree::lemma_histories(t, key);
        let b = own_nodes(s, key);
        let a = own_nodes(t, key);
        if bplus_tree::has_key(s, key) {
            let j = leaf_page::rank(s, key);
            assert(t[j].key == key);
            bplus_tree::lemma_history_at(t, j);
        }
        if bplus_tree::has_key(t, key) {
            let j = leaf_page::rank(t, key);
            assert(s[j].key == key);
            bplus_tree::lemma_history_at(s, j);
        }
        if a.len() == b.len() + 1 {
            assert(a.take(b.len() as int) =~= a.drop_last());
        } else {
            assert(a.take(b.len() as int) =~= b);
        }
    }
}

/// All links stay when a record comes that has none.
pub proof fn lemma_links_insert(s: Seq<VersionedRecordPoint>, r: VersionedRecordPoint)
    requires
        leaf_page::sorted(s),
        !bplus_tree::has_key(s, r.key),
        forall|p: int| 0 <= p < nodes_of(r).len() ==> (#[trigger] nodes_of(r)[p]).k_ridgy is None,
    ensures
        links_kept(s, s.insert(leaf_page::rank(s, r.key), r)),
{
    let at = leaf_page::rank(s, r.key);
    bplus_tree::lemma_histories(s, r.key);
    bplus_tree::lemma_histories_insert(s, r);
    let t = s.insert(at, r);
    assert forall|key: Key| #[trigger] kept_at(s, t, key) by {
        bplus_tree::lemma_histories(s, key);
        bplus_tree::lemma_histories(t, key);
        bplus_tree::lemma_history_at(t, at);
        let b = own_nodes(s, key);
        let a = own_nodes(t, key);
        if key != r.key {
            if bplus_tree::has_key(s, key) {
                let j = leaf_page::rank(s, key);
                let k = if j < at {
                    j
                } else {
                    j + 1
                };
                assert(t[k] == s[j]);
                bplus_tree::lemma_history_at(t, k);
            }
            if bplus_tree::has_key(t, key) {
                let k = leaf_page::rank(t, key);
                let j = if k < at {
                    k
                } else {
                    k - 1
                };
                assert(t[k] == s[j]);
                bplus_tree::lemma_history_at(s, j);
            }
        }
        assert(a.take(b.len() as int) =~= b);
    }
}

/// The first node with a payload on the way along the links between keys.
pub open spec fn live_ridge(s: Seq<VersionedRecordPoint>, at: KeyRidge<Key>) -> Option<
    KeyRidge<Key>,
>
    decreases Key::MAX - at.key,
{
    let node = nodes_at(s, at.key)[at.node as int];
    if node.payload is Some {
        Some(at)
    } else {
        match node.k_ridgy {
            Some(to) => if at.key < to.key {
                live_ridge(s, to)
            } else {
                None
            },
            None => None,
        }
    }
}

/// What a walk along the links between keys comes by from a node on: of each node with a
/// payload, what a search for `version` finds from there, up to the first such node outside of
/// the interval.
pub open spec fn ridge_run(
    s: Seq<VersionedRecordPoint>,
    at: KeyRidge<Key>,
    interval: Interval,
    version: Version,
) -> Seq<RecordPoint<Key, Payload>>
    decreases Key::MAX - at.key,
{
    let nodes = nodes_at(s, at.key);
    let node = nodes[at.node as int];
    let rest = match node.k_ridgy {
        Some(to) => if at.key < to.key {
            ridge_run(s, to, interval, version)
        } else {
            Seq::empty()
        },
        None => Seq::empty(),
    };
    if node.payload is None {
        rest
    } else if !interval.has(at.key) {
        Seq::empty()
    } else {
        match v_weaver::searched(nodes, at.node as int, version, false) {
            Some(p) => seq![RecordPoint { key: at.key, payload: nodes[p as int].payload->0 }]
                + rest,
            None => rest,
        }
    }
}

/// What a walk comes by from a link on.
pub open spec fn run_from(
    s: Seq<VersionedRecordPoint>,
    at: Option<KeyRidge<Key>>,
    interval: Interval,
    version: Version,
) -> Seq<RecordPoint<Key, Payload>> {
    match at {
        Some(to) => ridge_run(s, to, interval, version),
        None => Seq::empty(),
    }
}

/// Where the links lead next.
pub open spec fn link_at(s: Seq<VersionedRecordPoint>, at: KeyRidge<Key>) -> Option<KeyRidge<Key>> {
    nodes_at(s, at.key)[at.node as int].k_ridgy
}

/// The links of a node lead on.
pub proof fn lemma_link(s: Seq<VersionedRecordPoint>, at: KeyRidge<Key>)
    requires
        leaf_page::sorted(s),
        woven(s),
        leads(s, at),
    ensures
        link_at(s, at) matches Some(to) ==> leads(s, to) && at.key < to.key && ridge_ok(
            s,
            at.key,
            nodes_at(s, at.key),
            at.node as int,
            to,
        ),
{
    bplus_tree::lemma_histories(s, at.key);
    let i = leaf_page::rank(s, at.key);
    assert(nodes_of(s[i])[at.node as int].k_ridgy == link_at(s, at));
}

/// A walk starts at the first node with a payload.
proof fn lemma_run_starts(
    s: Seq<VersionedRecordPoint>,
    at: KeyRidge<Key>,
    interval: Interval,
    version: Version,
)
    requires
        leaf_page::sorted(s),
        woven(s),
        leads(s, at),
    ensures
        live_ridge(s, at) matches Some(t) ==> {
            &&& leads(s, t)
            &&& at.key <= t.key
            &&& nodes_at(s, t.key)[t.node as int].payload is Some
            &&& ridge_run(s, at, interval, version) == ridge_run(s, t, interval, version)
        },
        live_ridge(s, at) is None ==> ridge_run(s, at, interval, version)
            == Seq::<RecordPoint<Key, Payload>>::empty(),
    decreases Key::MAX - at.key,
{
    lemma_link(s, at);
    if nodes_at(s, at.key)[at.node as int].payload is None {
        if let Some(to) = link_at(s, at) {
            lemma_run_starts(s, to, interval, version);
        }
    }
}

impl VWeaverKeyRidgyIterator<Key> {
    /// The next node with a payload. Tombstones on the way are passed over.
    pub fn next<const FAN_OUT: usize, const NUM_RECORDS: usize>(
        &mut self,
        tree: &BPlusTree<FAN_OUT, NUM_RECORDS>,
    ) -> (item: Option<KeyRidge<Key>>)
        requires
            tree.wf(),
            tree.kind() is VWEAVER,
            old(self).current matches Some(at) ==> leads(tree.records(), at),
        ensures
            item == (match old(self).current {
                Some(at) => live_ridge(tree.records(), at),
                None => None,
            }),
            item matches Some(t) ==> {
                &&& leads(tree.records(), t)
                &&& final(self).current == link_at(tree.records(), t)
            },
            item is None ==> final(self).current is None,
            final(self).current matches Some(to) ==> leads(tree.records(), to),
    {
        let ghost s = tree.records();
        let ghost start = self.current;
        loop
            invariant
                s == tree.records(),
                start == old(self).current,
                tree.wf(),
                tree.kind() is VWEAVER,
                self.current matches Some(at) ==> leads(s, at),
                (match self.current {
                    Some(at) => live_ridge(s, at),
                    None => None,
                }) == (match start {
                    Some(at) => live_ridge(s, at),
                    None => None,
                }),
            decreases
                    (match self.current {
                        Some(at) => Key::MAX - at.key + 1,
                        None => 0,
                    }),
        {
            match self.current.take() {
                Some(at) => {
                    proof {
                        tree.lemma_woven();
                        bplus_tree::lemma_histories(s, at.key);
                        lemma_link(s, at);
                    }
                    let list = tree.weaver(at.key);
                    let node = list.node(at.node);
                    self.current = match &node.k_ridgy {
                        Some(to) => Some(KeyRidge { key: to.key, node: to.node }),
                        None => None,
                    };
                    if node.is_live() {
                        return Some(at);
                    }
                },
                None => {
                    return None;
                },
            }
        }
    }
}

impl<const FAN_OUT: usize, const NUM_RECORDS: usize> BPlusTree<FAN_OUT, NUM_RECORDS> {
    /// The versions of a key, which are woven.
    fn weaver(&self, key: Key) -> (list: &AtomicVWeaverList<Key, Payload>)
        requires
            self.wf(),
            self.kind() is VWEAVER,
            bplus_tree::has_key(self.records(), key),
        ensures
            list.wf(),
            list.nodes() == nodes_at(self.records(), key),
            node_versions::ordered(list@),
    {
        proof {
            self.lemma_woven();
            bplus_tree::lemma_histories(self.records(), key);
        }
        let record = self.find_record(key).unwrap();
        match &record.version_index {
            VersionIndex::VWEAVER(list) => list,
            _ => {
                assert(false);
                vstd::pervasive::unreached()
            },
        }
    }

    /// Lists what a walk along the links between keys comes by, and hands out the last key
    /// that it listed, or else the key at which it began.
    fn walk_ridge(
        &self,
        start: KeyRidge<Key>,
        interval: Interval,
        version: Version,
        out: &mut Vec<RecordPoint<Key, Payload>>,
    ) -> (last_key: Key)
        requires
            self.wf(),
            self.kind() is VWEAVER,
            leads(self.records(), start),
        ensures
            ({
                let run = ridge_run(self.records(), start, interval, version);
                &&& final(out)@ == old(out)@ + run
                &&& last_key == if run.len() > 0 {
                    run.last().key
                } else {
                    start.key
                }
            }),
    {
        let ghost s = self.records();
        let ghost run = ridge_run(s, start, interval, version);
        let ghost begun = out@;
        let ghost first = start.key;
        let mut last_key = start.key;
        let mut iter = VWeaverKeyRidgyIterator::from(start);
        proof {
            self.lemma_woven();
        }
        assert(out@ =~= begun + Seq::<RecordPoint<Key, Payload>>::empty());
        let ghost mut listed: Seq<RecordPoint<Key, Payload>> = Seq::empty();
        loop
            invariant_except_break
                listed + run_from(s, iter.current, interval, version) == run,
            invariant
                self.wf(),
                self.kind() is VWEAVER,
                s == self.records(),
                leaf_page::sorted(s),
                woven(s),
                iter.current matches Some(at) ==> leads(s, at),
                out@ == begun + listed,
                last_key == (if listed.len() > 0 {
                    listed.last().key
                } else {
                    first
                }),
            ensures
                listed == run,
            decreases
                    (match iter.current {
                        Some(at) => Key::MAX - at.key + 1,
                        None => 0,
                    }),
        {
            proof {
                if let Some(at) = iter.current {
                    lemma_run_starts(s, at, interval, version);
                }
            }
            match iter.next(self) {
                Some(at) => {
                    if !interval.contains(at.key) {
                        assert(listed + Seq::<RecordPoint<Key, Payload>>::empty() =~= listed);
                        break;
                    }
                    proof {
                        lemma_link(s, at);
                    }
                    let list = self.weaver(at.key);
                    let ghost rest = run_from(s, iter.current, interval, version);
                    match VWeaverNodeSt::find(list, at.node, version, false) {
                        Some(p) => {
                            let node = list.node(p);
                            let record = RecordPoint::new(at.key, node.payload.unwrap());
                            out.push(record);
                            last_key = record.key;
                            proof {
                                assert(listed + (seq![record] + rest) =~= listed.push(record)
                                    + rest);
                                listed = listed.push(record);
                                assert(out@ =~= begun + listed);
                            }
                        },
                        None => {},
                    }
                },
                None => {
                    assert(listed + Seq::<RecordPoint<Key, Payload>>::empty() =~= listed);
                    break;
                },
            }
        }
        last_key
    }

    /// Scans an interval along the links between keys. A round looks up the leaf for the lower
    /// end, starts at the first record there that the snapshot shows, follows the links from
    /// its version as far as they lead, and goes on behind the last key that it listed, or
    /// behind the leaf if it listed none.
    pub fn weaver_scan_dispatch(&self, interval: Interval, version: Version) -> (scan: (
        NodeVisits,
        Vec<RecordPoint<Key, Payload>>,
    ))
        requires
            self.wf(),
            self.kind() is VWEAVER,
        ensures
            scan.0 == count::saturated(self.levels() * woven_scan(self, interval, version).0),
            scan.1@ == woven_scan(self, interval, version).1,
    {
        let height = self.height();
        let mut visits: usize = 0;
        let mut result: Vec<RecordPoint<Key, Payload>> = Vec::new();
        let mut lower = interval.lower;
        let ghost mut rounds: nat = 0;
        let ghost whole = woven_scan(self, interval, version);
        assert(self.levels() * 0 == 0) by (nonlinear_arith);
        assert(result@ + whole.1 =~= whole.1);
        loop
            invariant_except_break
                ({
                    let rest = woven_scan(self, Interval { lower, ..interval }, version);
                    &&& result@ + rest.1 == whole.1
                    &&& rounds + rest.0 == whole.0
                }),
            invariant
                self.wf(),
                self.kind() is VWEAVER,
                height == self.levels(),
                whole == woven_scan(self, interval, version),
                visits == count::saturated(self.levels() * rounds),
            ensures
                rounds == whole.0,
                result@ == whole.1,
            decreases Key::MAX - lower,
        {
            let ghost before = lower;
            let ghost listed = result@;
            let window = Interval::new(lower, interval.upper);
            visits = visits.saturating_add(height);
            proof {
                let l = self.levels() as int;
                let r = rounds as int;
                assert(l * (r + 1) == l * r + l) by (nonlinear_arith);
                rounds = rounds + 1;
            }
            let (page, upper) = self.leaf(lower);
            let start = self.first_visible(page, window, version);
            lower = match start {
                Some(weaver_node) => inc_key(
                    self.walk_ridge(weaver_node, window, version, &mut result),
                ),
                None => inc_key(upper),
            };
            proof {
                let round = woven_scan(self, window, version);
                if let Some(at) = start {
                    let run = ridge_run(self.records(), at, window, version);
                    self.lemma_woven();
                    lemma_run_ascends(self.records(), at, window, version);
                    assert(result@ == listed + run);
                    if run.len() > 0 {
                        assert(run.last() == run[run.len() - 1]);
                    }
                } else {
                    assert(listed + Seq::<RecordPoint<Key, Payload>>::empty() =~= listed);
                }
                let rest = woven_scan(self, Interval { lower, ..interval }, version);
                if lower < interval.upper {
                    assert(listed + (if let Some(at) = start {
                        ridge_run(self.records(), at, window, version)
                    } else {
                        Seq::empty()
                    } + rest.1) =~= result@ + rest.1);
                }
            }
            if lower >= interval.upper {
                break;
            }
        }
        (visits, result)
    }
}

/// The first record from a position on that a snapshot shows, by the node that it shows.
pub open spec fn first_shown(
    page: Seq<VersionedRecordPoint>,
    from: int,
    version: Version,
) -> Option<KeyRidge<Key>>
    decreases page.len() - from,
{
    if from < 0 || from >= page.len() {
        None
    } else {
        match v_weaver::searched(
            nodes_of(page[from]),
            nodes_of(page[from]).len() - 1,
            version,
            false,
        ) {
            Some(node) => Some(KeyRidge { key: page[from].key, node }),
            None => first_shown(page, from + 1, version),
        }
    }
}

/// Where a round starts: at the first record of the interval or behind it that the snapshot
/// shows, if the page holds any record of the interval.
pub open spec fn round_start(
    page: Seq<VersionedRecordPoint>,
    interval: Interval,
    version: Version,
) -> Option<KeyRidge<Key>> {
    let from = leaf_page::rank(page, interval.lower);
    if from < page.len() && interval.has(page[from].key) {
        first_shown(page, from, version)
    } else {
        None
    }
}

/// How many rounds a scan takes, and what it lists.
pub open spec fn woven_scan<const FAN_OUT: usize, const NUM_RECORDS: usize>(
    tree: &BPlusTree<FAN_OUT, NUM_RECORDS>,
    interval: Interval,
    version: Version,
) -> (nat, Seq<RecordPoint<Key, Payload>>)
    decreases Key::MAX - interval.lower,
{
    let start = round_start(tree.page_at(interval.lower), interval, version);
    let run = run_from(tree.records(), start, interval, version);
    let next = keys::after(
        match start {
            Some(at) => if run.len() > 0 {
                run.last().key
            } else {
                at.key
            },
            None => tree.fence_at(interval.lower) as Key,
        },
    );
    if next >= interval.upper || next <= interval.lower {
        (1, run)
    } else {
        let rest = woven_scan(tree, Interval { lower: next, ..interval }, version);
        (1 + rest.0, run + rest.1)
    }
}

/// A walk lists keys in ascending order, none before its start.
proof fn lemma_run_ascends(
    s: Seq<VersionedRecordPoint>,
    at: KeyRidge<Key>,
    interval: Interval,
    version: Version,
)
    ensures
        ({
            let run = ridge_run(s, at, interval, version);
            &&& forall|i: int| 0 <= i < run.len() ==> at.key <= (#[trigger] run[i]).key
            &&& forall|i: int, j: int| 0 <= i < j < run.len() ==> run[i].key < run[j].key
            &&& forall|i: int| 0 <= i < run.len() ==> interval.has((#[trigger] run[i]).key)
        }),
    decreases Key::MAX - at.key,
{
    let run = ridge_run(s, at, interval, version);
    let rest = match link_at(s, at) {
        Some(to) => if at.key < to.key {
            ridge_run(s, to, interval, version)
        } else {
            Seq::empty()
        },
        None => Seq::empty(),
    };
    if let Some(to) = link_at(s, at) {
        if at.key < to.key {
            lemma_run_ascends(s, to, interval, version);
        }
    }
    if run.len() > rest.len() {
        assert(run =~= seq![run[0]] + rest);
        assert forall|i: int| 1 <= i < run.len() implies #[trigger] run[i] == rest[i - 1] by {}
        assert forall|i: int, j: int| 0 <= i < j < run.len() implies run[i].key < run[j].key by {
            assert(run[j] == rest[j - 1]);
            if i > 0 {
                assert(run[i] == rest[i - 1]);
            } else {
                assert(run[0].key == at.key);
                let to = link_at(s, at)->0;
                assert(to.key <= rest[j - 1].key);
            }
        }
        assert forall|i: int| 0 <= i < run.len() implies at.key <= (#[trigger] run[i]).key
            && interval.has(run[i].key) by {
            if i > 0 {
                assert(run[i] == rest[i - 1]);
                let to = link_at(s, at)->0;
                assert(to.key <= rest[i - 1].key);
            }
        }
    }
}

impl<const FAN_OUT: usize, const NUM_RECORDS: usize> BPlusTree<FAN_OUT, NUM_RECORDS> {
    /// Finds where a round starts.
    fn first_visible(
        &self,
        page: &[VersionedRecordPoint],
        interval: Interval,
        version: Version,
    ) -> (start: Option<KeyRidge<Key>>)
        requires
            leaf_page::sorted(page@),
            self.kind() is VWEAVER,
            forall|i: int| #![trigger page@[i]]
                0 <= i < page@.len() ==> {
                    &&& bplus_tree::record_ok(page@[i], self.kind(), self@.clock)
                    &&& bplus_tree::has_key(self.records(), page@[i].key)
                    &&& self.records()[leaf_page::rank(self.records(), page@[i].key)] == page@[i]
                },
        ensures
            start == round_start(page@, interval, version),
            start matches Some(at) ==> leads(self.records(), at) && at.key >= interval.lower,
    {
        let mut i: usize = 0;
        while i < page.len() && !interval.contains(page[i].key)
            invariant
                i <= page@.len(),
                forall|k: int| 0 <= k < i ==> !interval.has((#[trigger] page@[k]).key),
            ensures
                i < page@.len() ==> interval.has(page@[i as int].key),
            decreases page@.len() - i,
        {
            i = i + 1;
        }
        proof {
            leaf_page::lemma_rank(page@, interval.lower);
            let r = leaf_page::rank(page@, interval.lower);
            if i < page@.len() {
                assert(r <= i) by {
                    if r > i {
                        assert(page@[i as int].key_of() < interval.lower);
                    }
                }
                if r < i {
                    assert(page@[r].key_of() >= interval.lower);
                    assert(page@[r].key_of() < page@[i as int].key_of());
                    assert(interval.has(page@[r].key));
                }
            } else if r < page@.len() {
                assert(!interval.has(page@[r].key));
            }
        }
        let ghost from = i as int;
        let total: usize = page.len();
        while i < total
            invariant
                total == page@.len(),
                self.kind() is VWEAVER,
                leaf_page::sorted(page@),
                0 <= from <= i <= page@.len(),
                from < page@.len() ==> page@[from].key >= interval.lower,
                forall|k: int| #![trigger page@[k]]
                    0 <= k < page@.len() ==> {
                        &&& bplus_tree::record_ok(page@[k], self.kind(), self@.clock)
                        &&& bplus_tree::has_key(self.records(), page@[k].key)
                        &&& self.records()[leaf_page::rank(self.records(), page@[k].key)] == page@[k]
                    },
                first_shown(page@, from, version) == first_shown(page@, i as int, version),
                from < page@.len() ==> round_start(page@, interval, version) == first_shown(
                    page@,
                    from,
                    version,
                ),
            decreases page@.len() - i,
        {
            let record = &page[i];
            assert(bplus_tree::record_ok(*record, self.kind(), self@.clock));
            proof {
                if from < i {
                    assert(page@[from].key_of() < page@[i as int].key_of());
                }
            }
            match record.version_index.find_weaver_node(version) {
                Some(node) => {
                    return Some(KeyRidge { key: record.key, node });
                },
                None => {},
            }
            i = i + 1;
        }
        None
    }
}

/// What a walk lists is what the snapshot shows of those keys, if the walk begins at a version
/// that is no older than what the snapshot shows.
proof fn lemma_run_is_sound<const FAN_OUT: usize, const NUM_RECORDS: usize>(
    tree: &BPlusTree<FAN_OUT, NUM_RECORDS>,
    at: KeyRidge<Key>,
    interval: Interval,
    version: Version,
)
    requires
        tree.wf(),
        tree.kind() is VWEAVER,
        leads(tree.records(), at),
        at.node >= node_versions::latest_at(
            v_weaver::versions(nodes_at(tree.records(), at.key)),
            nodes_at(tree.records(), at.key).len() - 1,
            version,
        ),
    ensures
        forall|i: int|
            0 <= i < ridge_run(tree.records(), at, interval, version).len()
                ==> bplus_tree::seen(
                tree@.records,
                interval,
                version,
                #[trigger] ridge_run(tree.records(), at, interval, version)[i],
            ),
    decreases Key::MAX - at.key,
{
    let s = tree.records();
    let run = ridge_run(s, at, interval, version);
    tree.lemma_woven();
    lemma_link(s, at);
    bplus_tree::lemma_histories(s, at.key);
    let r = s[leaf_page::rank(s, at.key)];
    assert(bplus_tree::record_ok(r, tree.kind(), tree@.clock));
    let weaver = r.version_index->VWEAVER_0;
    let nodes = weaver.nodes();
    let view = weaver@;
    let last = nodes.len() - 1;
    node_versions::lemma_latest_from(view, last, at.node as int, version);
    v_weaver::lemma_reached_is_latest(nodes, at.node as int, version);
    node_versions::lemma_latest_bounds(view, at.node as int, version);
    let rest = match link_at(s, at) {
        Some(to) => {
            lemma_run_after(tree, at, to, version);
            lemma_run_is_sound(tree, to, interval, version);
            ridge_run(s, to, interval, version)
        },
        None => Seq::empty(),
    };
    assert forall|i: int| 0 <= i < run.len() implies bplus_tree::seen(
        tree@.records,
        interval,
        version,
        #[trigger] run[i],
    ) by {
        if run.len() == rest.len() {
            assert(run =~= rest);
        } else {
            assert(run =~= seq![run[0]] + rest);
            if i > 0 {
                assert(run[i] == rest[i - 1]);
            } else {
                let p = v_weaver::searched(nodes, at.node as int, version, false)->0;
                assert(view[p as int] == nodes[p as int].version());
            }
        }
    }
}

/// A link from a version that is no older than what a snapshot shows leads to such a version.
proof fn lemma_run_after<const FAN_OUT: usize, const NUM_RECORDS: usize>(
    tree: &BPlusTree<FAN_OUT, NUM_RECORDS>,
    at: KeyRidge<Key>,
    to: KeyRidge<Key>,
    version: Version,
)
    requires
        tree.wf(),
        tree.kind() is VWEAVER,
        leads(tree.records(), at),
        at.node >= node_versions::latest_at(
            v_weaver::versions(nodes_at(tree.records(), at.key)),
            nodes_at(tree.records(), at.key).len() - 1,
            version,
        ),
        link_at(tree.records(), at) == Some(to),
    ensures
        to.key > at.key,
        leads(tree.records(), to),
        to.node >= node_versions::latest_at(
            v_weaver::versions(nodes_at(tree.records(), to.key)),
            nodes_at(tree.records(), to.key).len() - 1,
            version,
        ),
{
    let s = tree.records();
    tree.lemma_woven();
    lemma_link(s, at);
    let nodes = nodes_at(s, at.key);
    let view = v_weaver::versions(nodes);
    node_versions::lemma_latest_from(view, nodes.len() - 1, at.node as int, version);
    assert(view[at.node + 1] == nodes[at.node + 1].version());
    let target = nodes_at(s, to.key);
    node_versions::lemma_latest_ascends(
        v_weaver::versions(target),
        target.len() - 1,
        version,
        nodes[at.node + 1].insert_version,
    );
}

/// A scan along the links lists nothing but what the snapshot shows of the interval, in
/// ascending order of the keys. It need not list all of that: a link that leads to a tombstone
/// passes over the older versions of that key.
pub proof fn law_weaver_scan_is_sound<const FAN_OUT: usize, const NUM_RECORDS: usize>(
    tree: &BPlusTree<FAN_OUT, NUM_RECORDS>,
    interval: Interval,
    version: Version,
)
    requires
        tree.wf(),
        tree.kind() is VWEAVER,
    ensures
        ({
            let out = woven_scan(tree, interval, version).1;
            &&& forall|i: int, j: int| 0 <= i < j < out.len() ==> out[i].key < out[j].key
            &&& forall|i: int|
                0 <= i < out.len() ==> bplus_tree::seen(
                    tree@.records,
                    interval,
                    version,
                    #[trigger] out[i],
                )
        }),
    decreases Key::MAX - interval.lower,
{
    let s = tree.records();
    tree.lemma_woven();
    let page = tree.page_at(interval.lower);
    tree.lemma_page_records(interval.lower);
    let start = round_start(page, interval, version);
    let run = run_from(s, start, interval, version);
    if let Some(at) = start {
        leaf_page::lemma_rank(page, interval.lower);
        lemma_first_shown(tree, interval.lower, leaf_page::rank(page, interval.lower), version);
        lemma_run_is_sound(tree, at, interval, version);
        lemma_run_ascends(s, at, interval, version);
    }
    let next = keys::after(
        match start {
            Some(at) => if run.len() > 0 {
                run.last().key
            } else {
                at.key
            },
            None => tree.fence_at(interval.lower) as Key,
        },
    );
    if !(next >= interval.upper || next <= interval.lower) {
        let narrow = Interval { lower: next, ..interval };
        law_weaver_scan_is_sound(tree, narrow, version);
        let rest = woven_scan(tree, narrow, version).1;
        let out = run + rest;
        assert forall|i: int| 0 <= i < rest.len() implies next <= (#[trigger] rest[i]).key by {
            assert(bplus_tree::seen(tree@.records, narrow, version, rest[i]));
        }
        assert forall|i: int, j: int| 0 <= i < j < out.len() implies out[i].key < out[j].key by {
            if i < run.len() && j >= run.len() {
                assert(run[i].key <= run.last().key) by {
                    if i < run.len() - 1 {
                        assert(run[i].key < run[run.len() - 1].key);
                    }
                }
                assert(next <= rest[j - run.len()].key);
            }
        }
        assert forall|i: int| 0 <= i < out.len() implies bplus_tree::seen(
            tree@.records,
            interval,
            version,
            #[trigger] out[i],
        ) by {
            if i >= run.len() {
                assert(bplus_tree::seen(
                    tree@.records,
                    narrow,
                    version,
                    rest[i - run.len()],
                ));
            } else {
                assert(out[i] == run[i]);
            }
        }
    }
}

/// The node that a snapshot shows of a record on a page is where a walk may begin.
proof fn lemma_first_shown<const FAN_OUT: usize, const NUM_RECORDS: usize>(
    tree: &BPlusTree<FAN_OUT, NUM_RECORDS>,
    key: Key,
    from: int,
    version: Version,
)
    requires
        tree.wf(),
        tree.kind() is VWEAVER,
        0 <= from,
    ensures
        first_shown(tree.page_at(key), from, version) matches Some(at) ==> {
            &&& leads(tree.records(), at)
            &&& at.node >= node_versions::latest_at(
                v_weaver::versions(nodes_at(tree.records(), at.key)),
                nodes_at(tree.records(), at.key).len() - 1,
                version,
            )
            &&& from < tree.page_at(key).len()
            &&& at.key >= tree.page_at(key)[from].key
        },
    decreases tree.page_at(key).len() - from,
{
    let page = tree.page_at(key);
    tree.lemma_page_records(key);
    if from < page.len() {
        let r = page[from];
        assert(bplus_tree::record_ok(r, tree.kind(), tree@.clock));
        let weaver = r.version_index->VWEAVER_0;
        let nodes = weaver.nodes();
        let last = nodes.len() - 1;
        v_weaver::lemma_reached_is_latest(nodes, last, version);
        node_versions::lemma_latest_bounds(weaver@, last, version);
        weaver.lemma_size();
        if v_weaver::searched(nodes, last, version, false) is None {
            lemma_first_shown(tree, key, from + 1, version);
            if from + 1 < page.len() {
                assert(page[from].key_of() < page[from + 1].key_of());
            }
        }
    }
}

/// The first record of a page behind a key.
pub open spec fn first_behind(page: Seq<VersionedRecordPoint>, key: Key) -> Option<
    VersionedRecordPoint,
> {
    let at = leaf_page::rank(page, keys::after(key));
    if key < Key::MAX && at < page.len() {
        Some(page[at])
    } else {
        None
    }
}

/// The record next to a key: on the same leaf if there is one behind it, or else on the leaf
/// for the next key.
pub open spec fn neighbour<const FAN_OUT: usize, const NUM_RECORDS: usize>(
    tree: &BPlusTree<FAN_OUT, NUM_RECORDS>,
    key: Key,
) -> Option<VersionedRecordPoint> {
    match first_behind(tree.page_at(key), key) {
        Some(r) => Some(r),
        None => first_behind(tree.page_at(keys::after(key)), key),
    }
}

/// The node that a snapshot shows of a key, be it a tombstone.
pub open spec fn shown_node<const FAN_OUT: usize, const NUM_RECORDS: usize>(
    tree: &BPlusTree<FAN_OUT, NUM_RECORDS>,
    key: Key,
    version: Version,
) -> WeaverNodeLink {
    let nodes = nodes_at(tree.records(), key);
    v_weaver::searched(nodes, nodes.len() - 1, version, true)
}

/// The version below the one that a snapshot shows of a key waits for its link.
pub open spec fn unlinked<const FAN_OUT: usize, const NUM_RECORDS: usize>(
    tree: &BPlusTree<FAN_OUT, NUM_RECORDS>,
    key: Key,
    version: Version,
) -> bool {
    &&& shown_node(tree, key, version) matches Some(at)
    &&& at > 0
    &&& nodes_at(tree.records(), key)[at - 1].k_ridgy is None
}

/// The link that it gets: to the node that the snapshot shows of the neighbour.
pub open spec fn link_target<const FAN_OUT: usize, const NUM_RECORDS: usize>(
    tree: &BPlusTree<FAN_OUT, NUM_RECORDS>,
    key: Key,
    version: Version,
) -> Option<KeyRidge<Key>> {
    match neighbour(tree, key) {
        Some(r) => match shown_node(tree, r.key, version) {
            Some(node) => Some(KeyRidge { key: r.key, node }),
            None => None,
        },
        None => None,
    }
}

/// The nodes of a key after the one below `at` got its link.
pub open spec fn with_link(
    nodes: Seq<VWeaverNodeSt<Key, Payload>>,
    at: int,
    to: KeyRidge<Key>,
) -> Seq<VWeaverNodeSt<Key, Payload>> {
    nodes.update(at, VWeaverNodeSt { k_ridgy: Some(to), ..nodes[at] })
}

/// A good link leaves the links as they should be.
pub proof fn lemma_woven_link(
    s: Seq<VersionedRecordPoint>,
    at: int,
    r: VersionedRecordPoint,
    p: int,
    to: KeyRidge<Key>,
)
    requires
        leaf_page::sorted(s),
        woven(s),
        0 <= at < s.len(),
        r.key == s[at].key,
        0 <= p < nodes_of(s[at]).len(),
        nodes_of(r) == with_link(nodes_of(s[at]), p, to),
        ridge_ok(s, s[at].key, nodes_of(s[at]), p, to),
    ensures
        woven(s.update(at, r)),
{
    let t = s.update(at, r);
    bplus_tree::lemma_histories_update(s, at, r);
    assert(v_weaver::versions(nodes_of(r)) =~= v_weaver::versions(nodes_of(s[at])));
    assert forall|i: int, q: int| #![trigger nodes_of(t[i])[q]]
        0 <= i < t.len() && 0 <= q < nodes_of(t[i]).len() implies (
    nodes_of(t[i])[q].k_ridgy matches Some(to2) ==> ridge_ok(
        t,
        t[i].key,
        nodes_of(t[i]),
        q,
        to2,
    )) by {
        if let Some(to2) = nodes_of(t[i])[q].k_ridgy {
            let ns = nodes_of(s[i]);
            if i == at && q == p {
                assert(to2 == to);
            } else {
                assert(ns[q].k_ridgy == Some(to2));
            }
            assert(ridge_ok(s, s[i].key, ns, q, to2));
            assert(nodes_of(t[i])[q + 1].insert_version == ns[q + 1].insert_version);
            bplus_tree::lemma_histories(s, to2.key);
            let j = leaf_page::rank(s, to2.key);
            assert(t[j].key == s[j].key);
            bplus_tree::lemma_history_at(t, j);
            assert(bplus_tree::has_key(t, to2.key));
        }
    }
}

impl<const FAN_OUT: usize, const NUM_RECORDS: usize> BPlusTree<FAN_OUT, NUM_RECORDS> {
    /// Finds the first record of a page behind a key, and the node that a snapshot shows of
    /// it.
    fn neighbour_on(&self, page: &[VersionedRecordPoint], key: Key, version: Version) -> (found: (
        bool,
        Option<KeyRidge<Key>>,
    ))
        requires
            self.wf(),
            self.kind() is VWEAVER,
            leaf_page::sorted(page@),
            forall|i: int| #![trigger page@[i]]
                0 <= i < page@.len() ==> {
                    &&& bplus_tree::record_ok(page@[i], self.kind(), self@.clock)
                    &&& bplus_tree::has_key(self.records(), page@[i].key)
                    &&& self.records()[leaf_page::rank(self.records(), page@[i].key)] == page@[i]
                },
        ensures
            found.0 == (first_behind(page@, key) is Some),
            found.1 == (match first_behind(page@, key) {
                Some(r) => match shown_node(self, r.key, version) {
                    Some(node) => Some(KeyRidge { key: r.key, node }),
                    None => None,
                },
                None => None,
            }),
            found.1 matches Some(to) ==> key < to.key && leads(self.records(), to),
    {
        let mut i: usize = 0;
        while i < page.len() && page[i].key <= key
            invariant
                i <= page@.len(),
                forall|k: int| 0 <= k < i ==> (#[trigger] page@[k]).key <= key,
            ensures
                i < page@.len() ==> page@[i as int].key > key,
            decreases page@.len() - i,
        {
            i = i + 1;
        }
        proof {
            if key < Key::MAX {
                let next = keys::after(key);
                assert forall|k: int| 0 <= k < i implies (#[trigger] page@[k]).key_of() < next by {
                    assert(page@[k].key <= key);
                }
                assert forall|k: int| i <= k < page@.len() implies (#[trigger] page@[k]).key_of()
                    >= next by {
                    if i < k {
                        assert(page@[i as int].key_of() < page@[k].key_of());
                    }
                }
                leaf_page::lemma_rank_is(page@, next, i as int);
            }
        }
        if i < page.len() {
            let record = &page[i];
            assert(bplus_tree::record_ok(*record, self.kind(), self@.clock));
            match record.version_index.find_weaver_node_or_tombstone(version) {
                Some(node) => (true, Some(KeyRidge { key: record.key, node })),
                None => (true, None),
            }
        } else {
            (false, None)
        }
    }

    /// Links the version that was replaced or deleted at `from_version` to the neighbouring
    /// key, unless it has its link or the neighbour has nothing to show. The pages that this
    /// comes by are counted if the neighbour is not on the same leaf.
    pub fn weaver_callback(&mut self, from_key: Key, from_version: Version) -> (visits: NodeVisits)
        requires
            old(self).wf(),
            old(self).kind() is VWEAVER,
            old(self)@.records.contains_key(from_key),
            shown_node(old(self), from_key, from_version) is Some,
        ensures
            final(self).wf(),
            final(self)@ == old(self)@,
            final(self).kind() == old(self).kind(),
            final(self).strategy() == old(self).strategy(),
            final(self).levels() == old(self).levels(),
            visits == (if unlinked(old(self), from_key, from_version) && first_behind(
                old(self).page_at(from_key),
                from_key,
            ) is None {
                old(self).levels()
            } else {
                0
            }),
            ({
                let s = old(self).records();
                let nodes = nodes_at(s, from_key);
                let at = shown_node(old(self), from_key, from_version)->0;
                let to = link_target(old(self), from_key, from_version);
                if unlinked(old(self), from_key, from_version) && to is Some {
                    exists|r: VersionedRecordPoint|
                        final(self).records() == #[trigger] s.update(
                            leaf_page::rank(s, from_key),
                            r,
                        ) && r.key == from_key && nodes_of(r) == with_link(nodes, at - 1, to->0)
                } else {
                    final(self).records() == s
                }
            }),
    {
        let ghost s = self.records();
        proof {
            self.lemma_woven();
            bplus_tree::lemma_histories(s, from_key);
        }
        let list = self.weaver(from_key);
        let at = list.find_any(from_version).unwrap();
        if at == 0 {
            return 0;
        }
        if list.node(at - 1).k_ridgy.is_some() {
            return 0;
        }
        let ghost nodes = list.nodes();
        assert(nodes[at as int].insert_version <= from_version);
        let (page, _) = self.leaf(from_key);
        let (near, target) = self.neighbour_on(page, from_key, from_version);
        let mut visits: usize = 0;
        let mut target = target;
        if !near {
            visits = self.height();
            let (next_page, _) = self.leaf(inc_key(from_key));
            let (_, far) = self.neighbour_on(next_page, from_key, from_version);
            target = far;
        }
        match target {
            Some(to) => {
                proof {
                    self.lemma_link_target(from_key, at as int, from_version, to);
                }
                self.link_record(from_key, at - 1, to);
            },
            None => {},
        }
        visits
    }

    /// The node that a snapshot shows of a later key is a good target.
    proof fn lemma_link_target(&self, key: Key, at: int, version: Version, to: KeyRidge<Key>)
        requires
            self.wf(),
            self.kind() is VWEAVER,
            bplus_tree::has_key(self.records(), key),
            leads(self.records(), to),
            key < to.key,
            0 < at < nodes_at(self.records(), key).len(),
            nodes_at(self.records(), key)[at].insert_version <= version,
            shown_node(self, to.key, version) == Some(to.node),
        ensures
            ridge_ok(self.records(), key, nodes_at(self.records(), key), at - 1, to),
    {
        let s = self.records();
        self.lemma_woven();
        bplus_tree::lemma_histories(s, to.key);
        let r = s[leaf_page::rank(s, to.key)];
        assert(bplus_tree::record_ok(r, self.kind(), self@.clock));
        let weaver = r.version_index->VWEAVER_0;
        let target = weaver.nodes();
        let last = target.len() - 1;
        v_weaver::lemma_reached_is_latest(target, last, version);
        weaver.lemma_size();
        node_versions::lemma_latest_bounds(weaver@, last, version);
        node_versions::lemma_latest_ascends(
            weaver@,
            last,
            nodes_at(s, key)[at].insert_version,
            version,
        );
    }
}

/// The first record of a page behind a key has the smallest key of those.
pub proof fn lemma_first_behind(page: Seq<VersionedRecordPoint>, key: Key)
    requires
        leaf_page::sorted(page),
    ensures
        first_behind(page, key) matches Some(r) ==> {
            &&& key < r.key
            &&& exists|i: int| 0 <= i < page.len() && #[trigger] page[i] == r
            &&& forall|i: int|
                0 <= i < page.len() && key < (#[trigger] page[i]).key ==> r.key <= page[i].key
        },
        first_behind(page, key) is None ==> forall|i: int|
            0 <= i < page.len() ==> (#[trigger] page[i]).key <= key,
{
    if key < Key::MAX {
        let next = keys::after(key);
        leaf_page::lemma_rank(page, next);
        let at = leaf_page::rank(page, next);
        if at < page.len() {
            assert(page[at].key_of() >= next);
            assert forall|i: int| 0 <= i < page.len() && key < (#[trigger] page[i]).key implies
                page[at].key <= page[i].key by {
                if i < at {
                    assert(page[i].key_of() < next);
                } else if at < i {
                    assert(page[at].key_of() < page[i].key_of());
                }
            }
        } else {
            assert forall|i: int| 0 <= i < page.len() implies (#[trigger] page[i]).key <= key by {
                assert(page[i].key_of() < next);
            }
        }
    }
}

/// A link leads to the next larger key that is stored. It is sought on the leaf for the key and
/// on the leaf for the key after it; where none is found, all larger keys lie behind the fence
/// of the latter.
pub proof fn law_links_lead_to_the_next_key<const FAN_OUT: usize, const NUM_RECORDS: usize>(
    tree: &BPlusTree<FAN_OUT, NUM_RECORDS>,
    key: Key,
    version: Version,
)
    requires
        tree.wf(),
    ensures
        neighbour(tree, key) matches Some(r) ==> {
            &&& key < r.key
            &&& tree@.records.contains_key(r.key)
            &&& forall|k: Key| #[trigger]
                tree@.records.contains_key(k) && key < k ==> r.key <= k
        },
        neighbour(tree, key) is None ==> forall|k: Key| #[trigger]
            tree@.records.contains_key(k) && key < k ==> k > tree.fence_at(keys::after(key)),
        link_target(tree, key, version) matches Some(to) ==> {
            &&& key < to.key
            &&& tree@.records.contains_key(to.key)
            &&& forall|k: Key| #[trigger]
                tree@.records.contains_key(k) && key < k ==> to.key <= k
        },
{
    let next = keys::after(key);
    let near = tree.page_at(key);
    let far = tree.page_at(next);
    tree.lemma_page_records(key);
    tree.lemma_page_records(next);
    tree.lemma_page_range(key);
    tree.lemma_page_range(next);
    lemma_first_behind(near, key);
    lemma_first_behind(far, key);
    assert forall|k: Key| #[trigger] tree@.records.contains_key(k) && key < k implies match neighbour(
        tree,
        key,
    ) {
        Some(r) => r.key <= k,
        None => k > tree.fence_at(next),
    } by {
        assert(bplus_tree::has_key(tree.records(), k));
        if first_behind(near, key) is Some {
            if k <= tree.fence_at(key) {
                assert(bplus_tree::has_key(near, k));
            }
        } else if k <= tree.fence_at(next) {
            assert(bplus_tree::has_key(far, k));
        }
    }
}

} // verus!
