//! What scans along the links between keys promise.

use vstd::prelude::*;
use crate::crud_model::dispatch;
use crate::page_model::leaf_page;
use crate::page_model::leaf_page::Keyed;
use crate::record_model::node_versions;
use crate::record_model::record_point::RecordPoint;
use crate::record_model::v_record_point::VersionedRecordPoint;
use crate::record_model::{Key, Payload, Version};
use crate::tree::bplus_tree;
use crate::tree::bplus_tree::BPlusTree;
use crate::tree::weaver;
use crate::utils::interval::Interval;
use crate::version_index::v_weaver;
use crate::version_index::v_weaver::KeyRidge;
use crate::workload::keys;

verus! {

/// Some link leads from a smaller key to this one or over it.
pub open spec fn passed_over(s: Seq<VersionedRecordPoint>, key: Key) -> bool {
    exists|from: KeyRidge<Key>|
        {
            &&& weaver::leads(s, from)
            &&& from.key < key
            &&& #[trigger] weaver::link_at(s, from) matches Some(to)
            &&& key <= to.key
        }
}

/// The node is no older than the one that the snapshot shows.
spec fn recent(s: Seq<VersionedRecordPoint>, at: KeyRidge<Key>, version: Version) -> bool {
    at.node >= node_versions::latest_at(
        v_weaver::versions(weaver::nodes_at(s, at.key)),
        weaver::nodes_at(s, at.key).len() - 1,
        version,
    )
}

/// A search from a node that is recent enough finds what a point query shows.
proof fn lemma_search_shows<const FAN_OUT: usize, const NUM_RECORDS: usize>(
    tree: &BPlusTree<FAN_OUT, NUM_RECORDS>,
    at: KeyRidge<Key>,
    version: Version,
)
    requires
        tree.wf(),
        tree.kind() is VWEAVER,
        weaver::leads(tree.records(), at),
        recent(tree.records(), at, version),
    ensures
        ({
            let nodes = weaver::nodes_at(tree.records(), at.key);
            match v_weaver::searched(nodes, at.node as int, version, false) {
                Some(p) => dispatch::point_answer(tree@, at.key, version) == Some(
                    RecordPoint { key: at.key, payload: nodes[p as int].payload->0 },
                ),
                None => dispatch::point_answer(tree@, at.key, version) is None,
            }
        }),
{
    let s = tree.records();
    tree.lemma_woven();
    bplus_tree::lemma_histories(s, at.key);
    let r = s[leaf_page::rank(s, at.key)];
    assert(bplus_tree::record_ok(r, tree.kind(), tree@.clock));
    let list = r.version_index->VWEAVER_0;
    let nodes = list.nodes();
    let view = list@;
    node_versions::lemma_latest_from(view, nodes.len() - 1, at.node as int, version);
    v_weaver::lemma_reached_is_latest(nodes, at.node as int, version);
    node_versions::lemma_latest_bounds(view, at.node as int, version);
    list.lemma_size();
    let i = node_versions::latest_at(view, nodes.len() - 1, version);
    if i >= 0 {
        assert(view[i] == nodes[i].version());
    }
}

/// A link from a node that is recent enough leads to such a node.
proof fn lemma_links_stay_recent<const FAN_OUT: usize, const NUM_RECORDS: usize>(
    tree: &BPlusTree<FAN_OUT, NUM_RECORDS>,
    at: KeyRidge<Key>,
    to: KeyRidge<Key>,
    version: Version,
)
    requires
        tree.wf(),
        tree.kind() is VWEAVER,
        weaver::leads(tree.records(), at),
        recent(tree.records(), at, version),
        weaver::link_at(tree.records(), at) == Some(to),
    ensures
        to.key > at.key,
        weaver::leads(tree.records(), to),
        recent(tree.records(), to, version),
{
    let s = tree.records();
    tree.lemma_woven();
    weaver::lemma_link(s, at);
    let nodes = weaver::nodes_at(s, at.key);
    let view = v_weaver::versions(nodes);
    node_versions::lemma_latest_from(view, nodes.len() - 1, at.node as int, version);
    assert(view[at.node + 1] == nodes[at.node + 1].version());
    let target = weaver::nodes_at(s, to.key);
    node_versions::lemma_latest_ascends(
        v_weaver::versions(target),
        target.len() - 1,
        version,
        nodes[at.node + 1].insert_version,
    );
}

/// A walk lists every key up to its last that the snapshot shows, but for those that a link
/// passes over.
proof fn lemma_run_is_complete<const FAN_OUT: usize, const NUM_RECORDS: usize>(
    tree: &BPlusTree<FAN_OUT, NUM_RECORDS>,
    at: KeyRidge<Key>,
    interval: Interval,
    version: Version,
    r: RecordPoint<Key, Payload>,
)
    requires
        tree.wf(),
        tree.kind() is VWEAVER,
        weaver::leads(tree.records(), at),
        recent(tree.records(), at, version),
        dispatch::point_answer(tree@, r.key, version) == Some(r),
        at.key <= r.key,
        at.key == r.key ==> weaver::nodes_at(tree.records(), at.key)[at.node as int].payload
            is Some && interval.has(r.key),
        at.key < r.key ==> {
            let run = weaver::ridge_run(tree.records(), at, interval, version);
            run.len() > 0 && r.key <= run.last().key
        },
    ensures
        weaver::ridge_run(tree.records(), at, interval, version).contains(r) || passed_over(
            tree.records(),
            r.key,
        ),
        at.key == r.key ==> weaver::ridge_run(tree.records(), at, interval, version).len() > 0
            && weaver::ridge_run(tree.records(), at, interval, version)[0] == r,
    decreases Key::MAX - at.key,
{
    let s = tree.records();
    let run = weaver::ridge_run(s, at, interval, version);
    let node = weaver::nodes_at(s, at.key)[at.node as int];
    tree.lemma_woven();
    weaver::lemma_link(s, at);
    lemma_search_shows(tree, at, version);
    if at.key == r.key {
        assert(run[0] == r);
    } else {
        let rest = match weaver::link_at(s, at) {
            Some(to) => weaver::ridge_run(s, to, interval, version),
            None => Seq::empty(),
        };
        if run.len() == rest.len() {
            assert(run =~= rest);
        } else {
            assert(run =~= seq![run[0]] + rest);
        }
        if rest.len() > 0 {
            assert(run.last() == rest.last());
        }
        let to = weaver::link_at(s, at)->0;
        if r.key <= to.key {
            assert(passed_over(s, r.key));
        } else {
            lemma_links_stay_recent(tree, at, to, version);
            lemma_run_is_complete(tree, to, interval, version, r);
            if rest.contains(r) {
                let i = choose|i: int| 0 <= i < rest.len() && rest[i] == r;
                assert(run[run.len() - rest.len() + i] == r);
            }
        }
    }
}

/// The first record of a page that a snapshot shows: no earlier one is shown.
proof fn lemma_first_shown_is_first<const FAN_OUT: usize, const NUM_RECORDS: usize>(
    tree: &BPlusTree<FAN_OUT, NUM_RECORDS>,
    key: Key,
    from: int,
    version: Version,
)
    requires
        tree.wf(),
        tree.kind() is VWEAVER,
        0 <= from,
    ensures
        ({
            let page = tree.page_at(key);
            let s = tree.records();
            match weaver::first_shown(page, from, version) {
                Some(at) => {
                    &&& weaver::leads(s, at)
                    &&& recent(s, at, version)
                    &&& weaver::nodes_at(s, at.key)[at.node as int].payload is Some
                    &&& dispatch::point_answer(tree@, at.key, version) is Some
                    &&& from < page.len() && page[from].key <= at.key
                    &&& exists|i: int| 0 <= i < page.len() && (#[trigger] page[i]).key == at.key
                    &&& forall|i: int|
                        from <= i < page.len() && (#[trigger] page[i]).key < at.key
                            ==> dispatch::point_answer(tree@, page[i].key, version) is None
                },
                None => forall|i: int|
                    from <= i < page.len() ==> dispatch::point_answer(
                        tree@,
                        (#[trigger] page[i]).key,
                        version,
                    ) is None,
            }
        }),
    decreases tree.page_at(key).len() - from,
{
    let page = tree.page_at(key);
    let s = tree.records();
    tree.lemma_page_records(key);
    if from < page.len() {
        let r = page[from];
        assert(bplus_tree::record_ok(r, tree.kind(), tree@.clock));
        let list = r.version_index->VWEAVER_0;
        let nodes = list.nodes();
        let last = nodes.len() - 1;
        list.lemma_size();
        assert(bplus_tree::has_key(s, r.key));
        assert(weaver::nodes_at(s, r.key) == nodes);
        let top = KeyRidge { key: r.key, node: last as usize };
        node_versions::lemma_latest_bounds(list@, last, version);
        lemma_search_shows(tree, top, version);
        v_weaver::lemma_reached_is_latest(nodes, last, version);
        match v_weaver::searched(nodes, last, version, false) {
            Some(p) => {
                let at = KeyRidge { key: r.key, node: p };
                assert(weaver::first_shown(page, from, version) == Some(at));
                assert(page[from].key == at.key);
                assert forall|i: int| from <= i < page.len() && (
                #[trigger] page[i]).key < at.key implies dispatch::point_answer(
                    tree@,
                    page[i].key,
                    version,
                ) is None by {
                    if from < i {
                        assert(page[from].key_of() < page[i].key_of());
                    }
                }
            },
            None => {
                lemma_first_shown_is_first(tree, key, from + 1, version);
                if from + 1 < page.len() {
                    assert(page[from].key_of() < page[from + 1].key_of());
                }
                assert forall|i: int| from <= i < page.len() && (match weaver::first_shown(
                    page,
                    from,
                    version,
                ) {
                    Some(at) => (#[trigger] page[i]).key < at.key,
                    None => true,
                }) implies dispatch::point_answer(
                    tree@,
                    (#[trigger] page[i]).key,
                    version,
                ) is None by {
                    if i > from {
                        assert(from + 1 <= i);
                    }
                }
            },
        }
    }
}

/// A round starts at the first key of the interval on the leaf that the snapshot shows.
proof fn lemma_round_start<const FAN_OUT: usize, const NUM_RECORDS: usize>(
    tree: &BPlusTree<FAN_OUT, NUM_RECORDS>,
    interval: Interval,
    version: Version,
    k: Key,
)
    requires
        tree.wf(),
        tree.kind() is VWEAVER,
        interval.has(k),
        k <= tree.fence_at(interval.lower),
        dispatch::point_answer(tree@, k, version) is Some,
    ensures
        weaver::round_start(tree.page_at(interval.lower), interval, version) matches Some(at)
            && at.key <= k,
{
    let s = tree.records();
    let page = tree.page_at(interval.lower);
    tree.lemma_woven();
    tree.lemma_page_records(interval.lower);
    tree.lemma_page_range(interval.lower);
    bplus_tree::lemma_histories(s, k);
    assert(bplus_tree::has_key(s, k));
    assert(bplus_tree::has_key(page, k));
    let i = choose|i: int| 0 <= i < page.len() && (#[trigger] page[i]).key == k;
    leaf_page::lemma_rank(page, interval.lower);
    let from = leaf_page::rank(page, interval.lower);
    assert(from <= i) by {
        if i < from {
            assert(page[i].key_of() < interval.lower);
        }
    }
    assert(page[from].key_of() >= interval.lower);
    if from < i {
        assert(page[from].key_of() < page[i].key_of());
    }
    assert(interval.has(page[from].key));
    lemma_first_shown_is_first(tree, interval.lower, from, version);
    if let Some(at) = weaver::first_shown(page, from, version) {
        if k < at.key {
            assert(page[i].key < at.key);
        }
    }
}

/// A round starts at a node that the snapshot shows, on the leaf for the lower end.
proof fn lemma_round_starts_well<const FAN_OUT: usize, const NUM_RECORDS: usize>(
    tree: &BPlusTree<FAN_OUT, NUM_RECORDS>,
    interval: Interval,
    version: Version,
)
    requires
        tree.wf(),
        tree.kind() is VWEAVER,
    ensures
        weaver::round_start(tree.page_at(interval.lower), interval, version) matches Some(at)
            ==> {
            &&& weaver::leads(tree.records(), at)
            &&& recent(tree.records(), at, version)
            &&& weaver::nodes_at(tree.records(), at.key)[at.node as int].payload is Some
            &&& dispatch::point_answer(tree@, at.key, version) is Some
            &&& interval.lower <= at.key <= tree.fence_at(interval.lower)
        },
{
    let page = tree.page_at(interval.lower);
    tree.lemma_page_records(interval.lower);
    tree.lemma_page_range(interval.lower);
    leaf_page::lemma_rank(page, interval.lower);
    let from = leaf_page::rank(page, interval.lower);
    if from < page.len() {
        assert(page[from].key_of() >= interval.lower);
    }
    lemma_first_shown_is_first(tree, interval.lower, from, version);
}

/// A scan along the links misses little: every record whose key is in the interval, below its
/// upper end, and that a point query of the snapshot shows, is listed, unless some link leads
/// from a smaller key to its key or over it.
pub proof fn law_weaver_scan_misses_only_what_links_pass_over<
    const FAN_OUT: usize,
    const NUM_RECORDS: usize,
>(
    tree: &BPlusTree<FAN_OUT, NUM_RECORDS>,
    interval: Interval,
    version: Version,
    r: RecordPoint<Key, Payload>,
)
    requires
        tree.wf(),
        tree.kind() is VWEAVER,
        interval.lower <= r.key < interval.upper,
        dispatch::point_answer(tree@, r.key, version) == Some(r),
    ensures
        weaver::woven_scan(tree, interval, version).1.contains(r) || passed_over(
            tree.records(),
            r.key,
        ),
    decreases Key::MAX - interval.lower,
{
    let s = tree.records();
    let page = tree.page_at(interval.lower);
    let start = weaver::round_start(page, interval, version);
    let run = weaver::run_from(s, start, interval, version);
    let out = weaver::woven_scan(tree, interval, version).1;
    tree.lemma_page_records(interval.lower);
    lemma_round_starts_well(tree, interval, version);
    if r.key <= tree.fence_at(interval.lower) {
        lemma_round_start(tree, interval, version, r.key);
    }
    let next = keys::after(
        match start {
            Some(at) => if run.len() > 0 {
                run.last().key
            } else {
                at.key
            },
            None => tree.fence_at(interval.lower) as Key,
        },
    );
    let here = match start {
        Some(at) => at.key == r.key || at.key < r.key && run.len() > 0 && r.key
            <= run.last().key,
        None => false,
    };
    if here {
        let at = start->0;
        lemma_run_is_complete(tree, at, interval, version, r);
        if run.contains(r) {
            let i = choose|i: int| 0 <= i < run.len() && run[i] == r;
            assert(out[i] == r);
        }
    } else {
        if let Some(at) = start {
            if at.key > r.key {
                assert(at.key <= tree.fence_at(interval.lower));
            }
            assert(at.key < r.key);
            if run.len() > 0 {
                lemma_run_after_start(s, at, interval, version);
            }
        }
        assert(interval.lower < next <= r.key);
        let narrow = Interval { lower: next, ..interval };
        law_weaver_scan_misses_only_what_links_pass_over(tree, narrow, version, r);
        let rest = weaver::woven_scan(tree, narrow, version).1;
        if rest.contains(r) {
            let i = choose|i: int| 0 <= i < rest.len() && rest[i] == r;
            assert(out[run.len() + i] == r);
        }
    }
}

/// A walk lists no key before its start.
proof fn lemma_run_after_start(
    s: Seq<VersionedRecordPoint>,
    at: KeyRidge<Key>,
    interval: Interval,
    version: Version,
)
    ensures
        weaver::ridge_run(s, at, interval, version).len() > 0 ==> at.key <= weaver::ridge_run(
            s,
            at,
            interval,
            version,
        ).last().key,
    decreases Key::MAX - at.key,
{
    let run = weaver::ridge_run(s, at, interval, version);
    if let Some(to) = weaver::link_at(s, at) {
        if at.key < to.key {
            lemma_run_after_start(s, to, interval, version);
            let rest = weaver::ridge_run(s, to, interval, version);
            if rest.len() > 0 && run.len() > 0 {
                assert(run.last() == rest.last());
            }
        }
    }
}

/// A scan along the links begins with the first record from the lower end of its interval on
/// that a point query of the snapshot shows, if its key is below the upper end.
pub proof fn law_weaver_scan_begins_with_the_first_record<
    const FAN_OUT: usize,
    const NUM_RECORDS: usize,
>(
    tree: &BPlusTree<FAN_OUT, NUM_RECORDS>,
    interval: Interval,
    version: Version,
    r: RecordPoint<Key, Payload>,
)
    requires
        tree.wf(),
        tree.kind() is VWEAVER,
        interval.lower <= r.key < interval.upper,
        dispatch::point_answer(tree@, r.key, version) == Some(r),
        forall|k: Key|
            interval.lower <= k < r.key ==> #[trigger] dispatch::point_answer(
                tree@,
                k,
                version,
            ) is None,
    ensures
        weaver::woven_scan(tree, interval, version).1.len() > 0,
        weaver::woven_scan(tree, interval, version).1[0] == r,
    decreases Key::MAX - interval.lower,
{
    let s = tree.records();
    let page = tree.page_at(interval.lower);
    let start = weaver::round_start(page, interval, version);
    let run = weaver::run_from(s, start, interval, version);
    let out = weaver::woven_scan(tree, interval, version).1;
    tree.lemma_page_records(interval.lower);
    lemma_round_starts_well(tree, interval, version);
    if r.key <= tree.fence_at(interval.lower) {
        lemma_round_start(tree, interval, version, r.key);
    }
    match start {
        Some(at) => {
            assert(dispatch::point_answer(tree@, at.key, version) is Some);
            assert(at.key == r.key);
            lemma_run_is_complete(tree, at, interval, version, r);
            assert(out[0] == run[0]);
        },
        None => {
            let next = keys::after(tree.fence_at(interval.lower) as Key);
            let narrow = Interval { lower: next, ..interval };
            law_weaver_scan_begins_with_the_first_record(tree, narrow, version, r);
            assert(run =~= Seq::<RecordPoint<Key, Payload>>::empty());
            let rest = weaver::woven_scan(tree, narrow, version).1;
            assert(out =~= rest);
        },
    }
}

/// A link leads to the version of the neighbouring key that the snapshot shows: the last one that
/// was inserted at or before it, be it a tombstone.
pub proof fn law_links_lead_to_the_shown_version<
    const FAN_OUT: usize,
    const NUM_RECORDS: usize,
>(
    tree: &BPlusTree<FAN_OUT, NUM_RECORDS>,
    key: Key,
    version: Version,
)
    requires
        tree.wf(),
        tree.kind() is VWEAVER,
        bplus_tree::has_key(tree.records(), key),
    ensures
        ({
            let nodes = weaver::nodes_at(tree.records(), key);
            match weaver::shown_node(tree, key, version) {
                Some(at) => {
                    &&& at < nodes.len()
                    &&& nodes[at as int].insert_version <= version
                    &&& forall|j: int|
                        at < j < nodes.len() ==> (#[trigger] nodes[j]).insert_version > version
                },
                None => forall|j: int|
                    0 <= j < nodes.len() ==> (#[trigger] nodes[j]).insert_version > version,
            }
        }),
{
    let s = tree.records();
    tree.lemma_woven();
    bplus_tree::lemma_histories(s, key);
    let r = s[leaf_page::rank(s, key)];
    assert(bplus_tree::record_ok(r, tree.kind(), tree@.clock));
    let list = r.version_index->VWEAVER_0;
    let nodes = list.nodes();
    let view = list@;
    let last = nodes.len() - 1;
    list.lemma_size();
    v_weaver::lemma_reached_is_latest(nodes, last, version);
    node_versions::lemma_latest_bounds(view, last, version);
    let i = node_versions::latest_at(view, last, version);
    assert forall|j: int| i < j < nodes.len() implies (#[trigger] nodes[j]).insert_version
        > version by {
        node_versions::lemma_latest_from(view, last, j - 1, version);
        assert(view[j] == nodes[j].version());
    }
}

/// A new link changes the node that it belongs to, and that only in the link.
pub proof fn law_new_links(
    nodes: Seq<v_weaver::VWeaverNodeSt<Key, Payload>>,
    at: int,
    to: KeyRidge<Key>,
    i: int,
)
    requires
        0 <= at < nodes.len(),
        0 <= i < nodes.len(),
    ensures
        ({
            let after = weaver::with_link(nodes, at, to);
            &&& after.len() == nodes.len()
            &&& after[i].k_ridgy == if i == at {
                Some(to)
            } else {
                nodes[i].k_ridgy
            }
            &&& after[i].payload == nodes[i].payload
            &&& after[i].insert_version == nodes[i].insert_version
            &&& after[i].next == nodes[i].next
            &&& after[i].v_ridgy == nodes[i].v_ridgy
            &&& after[i].key == nodes[i].key
            &&& after[i].level == nodes[i].level
        }),
{
}

/// A walk along the links stops at the first node with a payload: at its start if that has one,
/// and otherwise where it stops from the next node on, if there is one.
pub proof fn law_walks_pass_over_tombstones(s: Seq<VersionedRecordPoint>, at: KeyRidge<Key>)
    requires
        leaf_page::sorted(s),
        weaver::woven(s),
        weaver::leads(s, at),
    ensures
        weaver::live_ridge(s, at) matches Some(t) ==> weaver::leads(s, t) && at.key <= t.key
            && weaver::nodes_at(s, t.key)[t.node as int].payload is Some,
        weaver::nodes_at(s, at.key)[at.node as int].payload is Some ==> weaver::live_ridge(s, at)
            == Some(at),
        weaver::nodes_at(s, at.key)[at.node as int].payload is None ==> match weaver::nodes_at(
            s,
            at.key,
        )[at.node as int].k_ridgy {
            Some(to) => weaver::live_ridge(s, at) == weaver::live_ridge(s, to),
            None => weaver::live_ridge(s, at) is None,
        },
    decreases Key::MAX - at.key,
{
    weaver::lemma_link(s, at);
    if let Some(to) = weaver::link_at(s, at) {
        law_walks_pass_over_tombstones(s, to);
    }
}

/// The version below the one that a snapshot shows waits for its link if there is such a version
/// and it has none.
pub proof fn law_waiting_for_a_link<const FAN_OUT: usize, const NUM_RECORDS: usize>(
    tree: &BPlusTree<FAN_OUT, NUM_RECORDS>,
    key: Key,
    version: Version,
    at: usize,
)
    requires
        weaver::shown_node(tree, key, version) == Some(at),
    ensures
        weaver::unlinked(tree, key, version) <==> at > 0 && weaver::nodes_at(
            tree.records(),
            key,
        )[at - 1].k_ridgy is None,
{
}

/// A scan along the links goes leaf by leaf where nothing is shown: if the snapshot shows no key
/// on the leaf for the lower end, the scan takes one round more than the scan from the next leaf
/// on and lists the same, or is over if that begins at the upper end or behind it.
pub proof fn law_weaver_scan_goes_on_at_the_next_leaf<
    const FAN_OUT: usize,
    const NUM_RECORDS: usize,
>(
    tree: &BPlusTree<FAN_OUT, NUM_RECORDS>,
    lower: Key,
    upper: Key,
    version: Version,
)
    requires
        tree.wf(),
        tree.kind() is VWEAVER,
        forall|k: Key|
            lower <= k <= tree.fence_at(lower) ==> #[trigger] dispatch::point_answer(
                tree@,
                k,
                version,
            ) is None,
    ensures
        ({
            let scan = weaver::woven_scan(tree, Interval { lower, upper }, version);
            let f = tree.fence_at(lower);
            if f + 1 < upper {
                let rest = weaver::woven_scan(
                    tree,
                    Interval { lower: (f + 1) as Key, upper },
                    version,
                );
                scan.0 == rest.0 + 1 && scan.1 == rest.1
            } else {
                scan.0 == 1 && scan.1.len() == 0
            }
        }),
{
    let interval = Interval { lower, upper };
    tree.lemma_page_records(lower);
    lemma_round_starts_well(tree, interval, version);
    let start = weaver::round_start(tree.page_at(lower), interval, version);
    if let Some(at) = start {
        assert(dispatch::point_answer(tree@, at.key, version) is Some);
    }
    let f = tree.fence_at(lower);
    if f + 1 < upper {
        let rest = weaver::woven_scan(tree, Interval { lower: (f + 1) as Key, upper }, version);
        assert(Seq::<RecordPoint<Key, Payload>>::empty() + rest.1 =~= rest.1);
    }
}

/// A scan along the links goes key by key where there are no links: if the first record that the
/// snapshot shows is on the leaf for the lower end and within the interval, and the version that
/// it shows has no link, the scan lists the record and takes one round more than the scan from
/// the next key on, or is over if that is the upper end or behind it.
pub proof fn law_weaver_scan_goes_on_at_the_next_key<
    const FAN_OUT: usize,
    const NUM_RECORDS: usize,
>(
    tree: &BPlusTree<FAN_OUT, NUM_RECORDS>,
    lower: Key,
    upper: Key,
    version: Version,
    r: RecordPoint<Key, Payload>,
    node: usize,
)
    requires
        tree.wf(),
        tree.kind() is VWEAVER,
        lower <= r.key <= upper,
        r.key <= tree.fence_at(lower),
        dispatch::point_answer(tree@, r.key, version) == Some(r),
        forall|k: Key|
            lower <= k < r.key ==> #[trigger] dispatch::point_answer(tree@, k, version) is None,
        weaver::shown_node(tree, r.key, version) == Some(node),
        weaver::nodes_at(tree.records(), r.key)[node as int].k_ridgy is None,
    ensures
        ({
            let scan = weaver::woven_scan(tree, Interval { lower, upper }, version);
            if r.key + 1 < upper {
                let rest = weaver::woven_scan(
                    tree,
                    Interval { lower: (r.key + 1) as Key, upper },
                    version,
                );
                scan.0 == rest.0 + 1 && scan.1 == seq![r] + rest.1
            } else {
                scan.0 == 1 && scan.1 == seq![r]
            }
        }),
{
    let interval = Interval { lower, upper };
    let s = tree.records();
    tree.lemma_page_records(lower);
    lemma_round_starts_well(tree, interval, version);
    lemma_round_start(tree, interval, version, r.key);
    let page = tree.page_at(lower);
    let start = weaver::round_start(page, interval, version);
    let at = start->0;
    assert(dispatch::point_answer(tree@, at.key, version) is Some);
    assert(at.key == r.key);
    lemma_start_is_shown(tree, lower, leaf_page::rank(page, lower), version);
    assert(at.node == node);
    lemma_run_is_complete(tree, at, interval, version, r);
    let run = weaver::ridge_run(s, at, interval, version);
    assert(run =~= seq![r]);
    assert(run.last() == r);
    assert(seq![r] + Seq::<RecordPoint<Key, Payload>>::empty() =~= seq![r]);
}

/// A round starts at the very node that the snapshot shows of the key.
proof fn lemma_start_is_shown<const FAN_OUT: usize, const NUM_RECORDS: usize>(
    tree: &BPlusTree<FAN_OUT, NUM_RECORDS>,
    key: Key,
    from: int,
    version: Version,
)
    requires
        tree.wf(),
        tree.kind() is VWEAVER,
        0 <= from,
    ensures
        weaver::first_shown(tree.page_at(key), from, version) matches Some(at)
            ==> weaver::shown_node(tree, at.key, version) == Some(at.node),
    decreases tree.page_at(key).len() - from,
{
    let page = tree.page_at(key);
    tree.lemma_page_records(key);
    if from < page.len() {
        let r = page[from];
        assert(bplus_tree::record_ok(r, tree.kind(), tree@.clock));
        let nodes = r.version_index->VWEAVER_0.nodes();
        assert(weaver::nodes_at(tree.records(), r.key) == nodes);
        if v_weaver::searched(nodes, nodes.len() - 1, version, false) is None {
            lemma_start_is_shown(tree, key, from + 1, version);
        }
    }
}

} // verus!
