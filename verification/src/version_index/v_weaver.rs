//! A version list with one skip link per version and one link to the neighbouring key.
//!
//! Versions are kept oldest first, so the position of a node is its age rank. The node at
//! position `0` is the sentinel: it is live and sits on the highest level. Every later node
//! links to its predecessor and, through `v_ridgy`, to some older node. The head cell
//! publishes the position of the newest node. Across records, `k_ridgy` leads to a version
//! of a later key, so that a scan can cross from key to key without going back to the tree.

use vstd::prelude::*;
use crate::random::coin_toss;
use crate::record_model::node_versions;
use crate::record_model::node_versions::NodeVersion;
use crate::record_model::Version;
use crate::version_index::head_cell;
use crate::version_index::head_cell::{load_head, new_head, store_head, HeadCell};

verus! {

/// The level of a node that only repeats the linear link.
pub const FLAT_LEVEL: usize = 0;

/// The level of the first node of a list.
pub const SENTINEL_LEVEL: usize = usize::MAX;

/// A node, named by its position in its list.
pub type WeaverNode = usize;

/// A node that may be missing.
pub type WeaverNodeLink = Option<WeaverNode>;

/// A node of the list of some key.
#[derive(Clone, Copy, Debug)]
pub struct KeyRidge<Key> {
    pub key: Key,
    pub node: WeaverNode,
}

/// One version of a record. A node without a payload is a tombstone.
pub struct VWeaverNodeSt<Key, Payload> {
    /// The previous version.
    pub next: WeaverNodeLink,
    /// An older version to skip to.
    pub v_ridgy: WeaverNodeLink,
    /// A version of a later key.
    pub k_ridgy: Option<KeyRidge<Key>>,
    pub key: Key,
    pub payload: Option<Payload>,
    pub insert_version: Version,
    pub level: usize,
}

/// All versions of one record, newest at the head.
pub struct AtomicVWeaverList<Key, Payload> {
    nodes: Vec<VWeaverNodeSt<Key, Payload>>,
    head: HeadCell,
}

/// Walks the versions of a list from the newest towards the oldest.
pub struct VWeaverVersionIterator<'a, Key, Payload> {
    list: &'a AtomicVWeaverList<Key, Payload>,
    current: WeaverNodeLink,
}

/// Walks from key to key along the `k_ridgy` links.
pub struct VWeaverKeyRidgyIterator<Key> {
    pub current: Option<KeyRidge<Key>>,
}

impl<Key> VWeaverKeyRidgyIterator<Key> {
    /// An iterator that stands on the given node.
    pub fn from(weaver_node: KeyRidge<Key>) -> (iter: Self)
        ensures
            iter.current == Some(weaver_node),
    {
        VWeaverKeyRidgyIterator { current: Some(weaver_node) }
    }
}

impl<Key, Payload> VWeaverNodeSt<Key, Payload> {
    /// The version that this node stands for.
    pub open spec fn version(self) -> NodeVersion<Payload> {
        NodeVersion { payload: self.payload, insert_version: self.insert_version }
    }
}

/// The shape of a list: a live sentinel at the bottom, linear links without gaps, skip links
/// that lead strictly downwards, and one key throughout.
pub open spec fn linked<Key, Payload>(nodes: Seq<VWeaverNodeSt<Key, Payload>>) -> bool {
    &&& nodes.len() > 0
    &&& nodes[0].level == SENTINEL_LEVEL
    &&& nodes[0].payload is Some
    &&& nodes[0].next is None
    &&& nodes[0].v_ridgy is None
    &&& forall|i: int| #![trigger nodes[i]]
        0 < i < nodes.len() ==> {
            &&& nodes[i].level < i
            &&& nodes[i].next == Some((i - 1) as usize)
            &&& nodes[i].v_ridgy matches Some(j) && j < i
            &&& nodes[i].key == nodes[0].key
        }
}

/// The versions that `nodes` stand for, oldest first.
pub open spec fn versions<Key, Payload>(nodes: Seq<VWeaverNodeSt<Key, Payload>>) -> Seq<
    NodeVersion<Payload>,
> {
    nodes.map_values(|n: VWeaverNodeSt<Key, Payload>| n.version())
}

/// The position at which a search for `version` that starts at `from` stops: it takes the
/// skip link while the node behind it is still too new, and the linear link otherwise.
pub open spec fn reached<Key, Payload>(
    nodes: Seq<VWeaverNodeSt<Key, Payload>>,
    from: int,
    version: Version,
) -> int
    decreases from,
{
    if from <= 0 || nodes[from].insert_version <= version {
        from
    } else {
        match nodes[from].v_ridgy {
            Some(j) => if j < from && nodes[j as int].insert_version > version {
                reached(nodes, j as int, version)
            } else {
                reached(nodes, from - 1, version)
            },
            None => reached(nodes, from - 1, version),
        }
    }
}

/// The position that a search for `version` from position `from` hands out.
pub open spec fn searched<Key, Payload>(
    nodes: Seq<VWeaverNodeSt<Key, Payload>>,
    from: int,
    version: Version,
    allow_tombstone: bool,
) -> WeaverNodeLink {
    let at = reached(nodes, from, version);
    if nodes[at].insert_version <= version && (allow_tombstone || nodes[at].payload is Some) {
        Some(at as usize)
    } else {
        None
    }
}

/// The version at the position that a search handed out.
pub open spec fn version_found<Key, Payload>(
    nodes: Seq<VWeaverNodeSt<Key, Payload>>,
    found: WeaverNodeLink,
) -> Option<NodeVersion<Payload>> {
    match found {
        Some(at) => Some(nodes[at as int].version()),
        None => None,
    }
}

/// In a list whose versions ascend, a search stops at the newest version that the snapshot
/// may see, whatever skip links the coin tosses left behind.
pub proof fn lemma_reached_is_latest<Key, Payload>(
    nodes: Seq<VWeaverNodeSt<Key, Payload>>,
    from: int,
    version: Version,
)
    requires
        linked(nodes),
        node_versions::ordered(versions(nodes)),
        0 <= from < nodes.len(),
    ensures
        0 <= reached(nodes, from, version) <= from,
        node_versions::latest_at(versions(nodes), from, version) >= 0 ==> reached(
            nodes,
            from,
            version,
        ) == node_versions::latest_at(versions(nodes), from, version),
        node_versions::latest_at(versions(nodes), from, version) < 0 ==> reached(
            nodes,
            from,
            version,
        ) == 0 && nodes[0].insert_version > version,
    decreases from,
{
    let s = versions(nodes);
    if from > 0 && nodes[from].insert_version > version {
        let j = nodes[from].v_ridgy->0;
        if nodes[j as int].insert_version > version {
            lemma_reached_is_latest(nodes, j as int, version);
            node_versions::lemma_latest_skips(s, j as int, from, version);
        } else {
            lemma_reached_is_latest(nodes, from - 1, version);
        }
    } else if from == 0 {
        assert(s[0] == nodes[0].version());
        reveal_with_fuel(node_versions::latest_at, 2);
    }
}

/// A search never leaves the positions below its start.
pub proof fn lemma_reached_in_bounds<Key, Payload>(
    nodes: Seq<VWeaverNodeSt<Key, Payload>>,
    from: int,
    version: Version,
)
    requires
        linked(nodes),
        0 <= from < nodes.len(),
    ensures
        0 <= reached(nodes, from, version) <= from,
        nodes[reached(nodes, from, version)].insert_version > version ==> reached(
            nodes,
            from,
            version,
        ) == 0,
    decreases from,
{
    if from > 0 && nodes[from].insert_version > version {
        let j = nodes[from].v_ridgy->0;
        if nodes[j as int].insert_version > version {
            lemma_reached_in_bounds(nodes, j as int, version);
        } else {
            lemma_reached_in_bounds(nodes, from - 1, version);
        }
    }
}

/// The level of a tower that is raised above `below`: one more, which wraps to the lowest
/// level above the sentinel.
pub open spec fn level_above(below: usize) -> usize {
    if below == SENTINEL_LEVEL {
        FLAT_LEVEL
    } else {
        (below + 1) as usize
    }
}

/// The first node from `from` down the skip links that is at least `level` high.
pub open spec fn tower_base<Key, Payload>(
    nodes: Seq<VWeaverNodeSt<Key, Payload>>,
    from: int,
    level: usize,
) -> int
    decreases from,
{
    if from <= 0 || nodes[from].level >= level {
        from
    } else {
        match nodes[from].v_ridgy {
            Some(j) => if j < from {
                tower_base(nodes, j as int, level)
            } else {
                from
            },
            None => from,
        }
    }
}

/// The node that a flat append puts above `nodes`.
pub open spec fn flat_node<Key, Payload>(
    nodes: Seq<VWeaverNodeSt<Key, Payload>>,
    payload: Option<Payload>,
    insert_version: Version,
) -> VWeaverNodeSt<Key, Payload> {
    let head = (nodes.len() - 1) as usize;
    VWeaverNodeSt {
        next: Some(head),
        v_ridgy: Some(head),
        k_ridgy: None,
        key: nodes.last().key,
        payload,
        insert_version,
        level: FLAT_LEVEL,
    }
}

/// The node that a tower append puts above `nodes`.
pub open spec fn tower_node<Key, Payload>(
    nodes: Seq<VWeaverNodeSt<Key, Payload>>,
    payload: Option<Payload>,
    insert_version: Version,
) -> VWeaverNodeSt<Key, Payload> {
    let level = level_above(nodes.last().level);
    VWeaverNodeSt {
        next: Some((nodes.len() - 1) as usize),
        v_ridgy: Some(tower_base(nodes, nodes.len() - 1, level) as usize),
        k_ridgy: None,
        key: nodes.last().key,
        payload,
        insert_version,
        level,
    }
}

impl<Key, Payload> VWeaverNodeSt<Key, Payload> {
    /// A node without links.
    fn new(
        key: Key,
        payload: Option<Payload>,
        insert_version: Version,
        level: usize,
    ) -> (node: Self)
        ensures
            node == (VWeaverNodeSt {
                next: None,
                v_ridgy: None,
                k_ridgy: None,
                key,
                payload,
                insert_version,
                level,
            }),
    {
        Self::new_with(key, payload, insert_version, level, None, None)
    }

    /// A node made of its parts. It does not lead to another key yet.
    pub fn new_with(
        key: Key,
        payload: Option<Payload>,
        insert_version: Version,
        level: usize,
        next: WeaverNodeLink,
        v_ridgy: WeaverNodeLink,
    ) -> (node: Self)
        ensures
            node == (VWeaverNodeSt {
                next,
                v_ridgy,
                k_ridgy: None,
                key,
                payload,
                insert_version,
                level,
            }),
    {
        VWeaverNodeSt { next, v_ridgy, k_ridgy: None, key, payload, insert_version, level }
    }

    /// Whether the node holds a payload.
    pub fn is_live(&self) -> (r: bool)
        ensures
            r == (self.payload is Some),
    {
        self.payload.is_some()
    }

    /// Whether the node is a tombstone.
    pub fn is_deleted(&self) -> (r: bool)
        ensures
            r == (self.payload is None),
    {
        !self.is_live()
    }

    /// The node of `list` that a search for `version` from `curr` comes to.
    pub fn find(
        list: &AtomicVWeaverList<Key, Payload>,
        curr: WeaverNode,
        version: Version,
        allow_tombstone: bool,
    ) -> (found: WeaverNodeLink)
        requires
            list.wf(),
            curr < list@.len(),
        ensures
            found == searched(list.nodes(), curr as int, version, allow_tombstone),
            found matches Some(at) ==> {
                &&& at <= curr
                &&& list.nodes()[at as int].insert_version <= version
                &&& allow_tombstone || list.nodes()[at as int].payload is Some
            },
            node_versions::ordered(list@) ==> version_found(list.nodes(), found)
                == node_versions::lookup(list@, curr as int, version, allow_tombstone),
    {
        list.find_from(curr, version, allow_tombstone)
    }
}

impl<Key, Payload> AtomicVWeaverList<Key, Payload> {
    /// The nodes, oldest first.
    pub closed spec fn nodes(&self) -> Seq<VWeaverNodeSt<Key, Payload>> {
        self.nodes@
    }

    /// The published head.
    pub closed spec fn head_cell(&self) -> HeadCell {
        self.head
    }

    /// The list is linked as [`linked`] says, and its head is the newest node.
    pub open spec fn wf(&self) -> bool {
        &&& linked(self.nodes())
        &&& head_cell::head_position(self.head_cell()) == self.nodes().len() - 1
    }

    /// The versions, oldest first.
    pub open spec fn view(&self) -> Seq<NodeVersion<Payload>> {
        versions(self.nodes())
    }

    /// The key that the list belongs to.
    pub open spec fn key(&self) -> Key {
        self.nodes()[0].key
    }

    /// Positions can be counted.
    pub proof fn lemma_size(&self)
        ensures
            self.nodes().len() <= usize::MAX,
    {
        assert(self.nodes.len() == self.nodes@.len());
    }

    /// A list whose only version is live since `insert_version`.
    pub fn new(key: Key, payload: Payload, insert_version: Version) -> (list: Self)
        ensures
            list.wf(),
            list.key() == key,
            list@ == seq![NodeVersion { payload: Some(payload), insert_version }],
            list.nodes()[0].k_ridgy is None,
    {
        let mut nodes = Vec::new();
        nodes.push(VWeaverNodeSt::new(key, Some(payload), insert_version, SENTINEL_LEVEL));
        let list = AtomicVWeaverList { nodes, head: new_head(0) };
        assert(list@ =~= seq![NodeVersion { payload: Some(payload), insert_version }]);
        list
    }

    /// The node at a position.
    pub fn node(&self, at: WeaverNode) -> (node: &VWeaverNodeSt<Key, Payload>)
        requires
            at < self@.len(),
        ensures
            *node == self.nodes()[at as int],
    {
        &self.nodes[at]
    }

    /// The position of the newest node.
    pub fn head(&self) -> (at: WeaverNode)
        requires
            self.wf(),
        ensures
            at == self@.len() - 1,
    {
        load_head(&self.head)
    }

    /// Lets a node lead to a version of another key.
    pub fn set_k_ridgy(&mut self, at: WeaverNode, target: KeyRidge<Key>)
        requires
            old(self).wf(),
            at < old(self)@.len(),
        ensures
            final(self).wf(),
            final(self)@ == old(self)@,
            final(self).nodes() == old(self).nodes().update(
                at as int,
                VWeaverNodeSt { k_ridgy: Some(target), ..old(self).nodes()[at as int] },
            ),
            final(self).key() == old(self).key(),
    {
        self.nodes[at].k_ridgy = Some(target);
        assert(self@ =~= old(self)@);
    }

    /// A copy of the payload of the newest version.
    pub fn newest_payload(&self) -> (payload: Payload) where Payload: Clone
        requires
            self.wf(),
            self@.last().payload is Some,
        ensures
            cloned(self@.last().payload->0, payload),
    {
        self.node(self.head()).payload.as_ref().unwrap().clone()
    }

    /// Whether the newest version is live.
    pub fn is_live(&self) -> (r: bool)
        requires
            self.wf(),
        ensures
            r == (self@.last().payload is Some),
    {
        self.node(self.head()).is_live()
    }

    /// The node that a search for `look_up_version` from position `curr` comes to.
    pub fn find_from(
        &self,
        curr: WeaverNode,
        look_up_version: Version,
        allow_tombstone: bool,
    ) -> (found: WeaverNodeLink)
        requires
            self.wf(),
            curr < self@.len(),
        ensures
            found == searched(self.nodes(), curr as int, look_up_version, allow_tombstone),
            found matches Some(at) ==> {
                &&& at <= curr
                &&& self.nodes()[at as int].insert_version <= look_up_version
                &&& allow_tombstone || self.nodes()[at as int].payload is Some
            },
            node_versions::ordered(self@) ==> version_found(self.nodes(), found)
                == node_versions::lookup(self@, curr as int, look_up_version, allow_tombstone),
    {
        let start: usize = curr;
        let mut curr: usize = start;
        while self.nodes[curr].level < SENTINEL_LEVEL && self.nodes[curr].insert_version
            > look_up_version
            invariant
                linked(self.nodes@),
                curr <= start < self.nodes@.len(),
                reached(self.nodes@, curr as int, look_up_version) == reached(
                    self.nodes@,
                    start as int,
                    look_up_version,
                ),
            decreases curr,
        {
            assert(curr > 0);
            let node = &self.nodes[curr];
            let skip: usize = node.v_ridgy.unwrap();
            curr = if self.nodes[skip].insert_version > look_up_version {
                skip
            } else {
                node.next.unwrap()
            };
        }
        proof {
            assert(self.nodes@[curr as int].level == SENTINEL_LEVEL ==> curr == 0);
            assert(reached(self.nodes@, curr as int, look_up_version) == curr);
            if node_versions::ordered(self@) {
                lemma_reached_is_latest(self.nodes@, start as int, look_up_version);
                node_versions::lemma_latest_bounds(self@, start as int, look_up_version);
            }
        }
        let node = &self.nodes[curr];
        if node.insert_version <= look_up_version && (allow_tombstone || node.is_live()) {
            Some(curr)
        } else {
            None
        }
    }

    /// The live node that a reader of snapshot `look_up_version` sees.
    pub fn find(&self, look_up_version: Version) -> (found: WeaverNodeLink)
        requires
            self.wf(),
        ensures
            found == searched(self.nodes(), self@.len() - 1, look_up_version, false),
            found matches Some(at) ==> {
                &&& at < self@.len()
                &&& self.nodes()[at as int].insert_version <= look_up_version
                &&& self.nodes()[at as int].payload is Some
            },
            node_versions::ordered(self@) ==> version_found(self.nodes(), found)
                == node_versions::lookup(self@, self@.len() - 1, look_up_version, false),
    {
        self.find_from(self.head(), look_up_version, false)
    }

    /// The node that a reader of snapshot `look_up_version` sees, be it a tombstone.
    pub fn find_any(&self, look_up_version: Version) -> (found: WeaverNodeLink)
        requires
            self.wf(),
        ensures
            found == searched(self.nodes(), self@.len() - 1, look_up_version, true),
            found matches Some(at) ==> {
                &&& at < self@.len()
                &&& self.nodes()[at as int].insert_version <= look_up_version
            },
            node_versions::ordered(self@) ==> version_found(self.nodes(), found)
                == node_versions::lookup(self@, self@.len() - 1, look_up_version, true),
    {
        self.find_from(self.head(), look_up_version, true)
    }

    /// An iterator over the versions, newest first.
    pub fn iter(&self) -> (iter: VWeaverVersionIterator<'_, Key, Payload>)
        requires
            self.wf(),
        ensures
            iter.wf(),
            iter.nodes() == self.nodes(),
            iter.rest() == self@.len(),
    {
        VWeaverVersionIterator { list: self, current: Some(self.head()) }
    }

    /// The number of versions that are no tombstones.
    pub fn len(&self) -> (n: usize)
        requires
            self.wf(),
        ensures
            n == node_versions::live_count(self@),
    {
        let total: usize = self.nodes.len();
        let mut iter = self.iter();
        let mut count: usize = 0;
        let ghost mut rest: int = self@.len() as int;
        assert(self@.take(rest) =~= self@);
        loop
            invariant
                iter.wf(),
                iter.nodes() == self.nodes(),
                iter.rest() == rest,
                0 <= rest <= self@.len(),
                count + node_versions::live_count(self@.take(rest)) == node_versions::live_count(
                    self@,
                ),
                count + rest <= self@.len() == total,
            ensures
                count == node_versions::live_count(self@),
            decreases rest,
        {
            let item = iter.next();
            proof {
                node_versions::lemma_live_below(self@, rest - 1);
                rest = iter.rest();
            }
            if item.is_none() {
                break;
            }
            count += 1;
        }
        count
    }
}

impl<Key: Copy, Payload: Clone> AtomicVWeaverList<Key, Payload> {
    /// Puts a tombstone above the newest version and hands out the payload that it ends,
    /// unless the newest version is a tombstone already.
    pub fn delete(&mut self, insert_version: Version) -> (ended: Option<Payload>)
        requires
            old(self).wf(),
        ensures
            final(self).wf(),
            final(self).key() == old(self).key(),
            node_versions::copied(old(self)@.last().payload, ended),
            old(self)@.last().payload is None ==> final(self).nodes() == old(self).nodes(),
            old(self)@.last().payload is Some ==> {
                &&& final(self)@ == old(self)@.push(NodeVersion { payload: None, insert_version })
                &&& final(self).nodes().drop_last() == old(self).nodes()
                &&& final(self).nodes().last().k_ridgy is None
            },
    {
        if self.is_live() {
            self.append(None, insert_version)
        } else {
            None
        }
    }

    /// Puts a version above the newest one.
    pub fn push(&mut self, payload: Option<Payload>, insert_version: Version)
        requires
            old(self).wf(),
        ensures
            final(self).wf(),
            final(self).key() == old(self).key(),
            final(self)@ == old(self)@.push(NodeVersion { payload, insert_version }),
            final(self).nodes().drop_last() == old(self).nodes(),
            final(self).nodes().last().k_ridgy is None,
    {
        let _ = self.append(payload, insert_version);
    }

    /// Puts a version above the newest one and hands out the payload that was newest before.
    /// A coin toss decides whether the new node raises a tower or stays flat; what the list
    /// holds does not depend on it.
    pub fn append(&mut self, payload: Option<Payload>, insert_version: Version) -> (before: Option<
        Payload,
    >)
        requires
            old(self).wf(),
        ensures
            final(self).wf(),
            final(self).key() == old(self).key(),
            node_versions::copied(old(self)@.last().payload, before),
            final(self)@ == old(self)@.push(NodeVersion { payload, insert_version }),
            ({
                let nodes = old(self).nodes();
                ||| final(self).nodes() == nodes.push(flat_node(nodes, payload, insert_version))
                ||| final(self).nodes() == nodes.push(tower_node(nodes, payload, insert_version))
            }),
            final(self).nodes().drop_last() == old(self).nodes(),
            final(self).nodes().last().k_ridgy is None,
    {
        let before = if coin_toss() {
            self.append_tower(payload, insert_version)
        } else {
            self.append_next(payload, insert_version)
        };
        assert(self.nodes().drop_last() =~= old(self).nodes());
        assert(self@ =~= old(self)@.push(NodeVersion { payload, insert_version }));
        before
    }

    /// Puts a flat node above the newest one.
    pub fn append_next(
        &mut self,
        payload: Option<Payload>,
        insert_version: Version,
    ) -> (before: Option<Payload>)
        requires
            old(self).wf(),
        ensures
            final(self).wf(),
            node_versions::copied(old(self)@.last().payload, before),
            final(self).nodes() == old(self).nodes().push(
                flat_node(old(self).nodes(), payload, insert_version),
            ),
    {
        let head: usize = load_head(&self.head);
        let before = self.nodes[head].payload.clone();
        let key = self.nodes[head].key;
        self.nodes.push(
            VWeaverNodeSt::new_with(
                key,
                payload,
                insert_version,
                FLAT_LEVEL,
                Some(head),
                Some(head),
            ),
        );
        store_head(&mut self.head, self.nodes.len() - 1);
        before
    }

    /// Puts a node above the newest one that is one level higher and skips to the next node
    /// of at least its own level.
    pub fn append_tower(
        &mut self,
        payload: Option<Payload>,
        insert_version: Version,
    ) -> (before: Option<Payload>)
        requires
            old(self).wf(),
        ensures
            final(self).wf(),
            node_versions::copied(old(self)@.last().payload, before),
            final(self).nodes() == old(self).nodes().push(
                tower_node(old(self).nodes(), payload, insert_version),
            ),
    {
        let head: usize = load_head(&self.head);
        let before = self.nodes[head].payload.clone();
        let key = self.nodes[head].key;
        let level: usize = self.nodes[head].level.wrapping_add(1);
        let mut curr: usize = head;
        while self.nodes[curr].level < level
            invariant
                self.nodes() == old(self).nodes(),
                linked(self.nodes@),
                head == self.nodes@.len() - 1,
                curr <= head,
                tower_base(self.nodes@, curr as int, level) == tower_base(
                    self.nodes@,
                    head as int,
                    level,
                ),
            decreases curr,
        {
            assert(curr > 0);
            curr = self.nodes[curr].v_ridgy.unwrap();
        }
        self.nodes.push(
            VWeaverNodeSt::new_with(key, payload, insert_version, level, Some(head), Some(curr)),
        );
        store_head(&mut self.head, self.nodes.len() - 1);
        before
    }

    /// A list of its own with the same nodes: the same versions under the same links.
    pub fn clone(&self) -> (list: Self)
        requires
            self.wf(),
        ensures
            list.wf(),
            list.key() == self.key(),
            node_versions::copies(self@, list@),
            same_links(self.nodes(), list.nodes()),
    {
        let mut nodes: Vec<VWeaverNodeSt<Key, Payload>> = Vec::new();
        let mut i: usize = 0;
        while i < self.nodes.len()
            invariant
                self.wf(),
                i <= self.nodes@.len(),
                nodes@.len() == i,
                forall|k: int| #![trigger nodes@[k]]
                    0 <= k < i ==> same_node(self.nodes@[k], nodes@[k]),
            decreases self.nodes@.len() - i,
        {
            let node = &self.nodes[i];
            let k_ridgy = match &node.k_ridgy {
                Some(ridge) => Some(KeyRidge { key: ridge.key, node: ridge.node }),
                None => None,
            };
            let copy = VWeaverNodeSt {
                next: node.next,
                v_ridgy: node.v_ridgy,
                k_ridgy,
                key: node.key,
                payload: node.payload.clone(),
                insert_version: node.insert_version,
                level: node.level,
            };
            nodes.push(copy);
            i += 1;
        }
        let list = AtomicVWeaverList { nodes, head: new_head(i - 1) };
        assert forall|k: int| #![trigger list@[k]] 0 <= k < self@.len() implies {
            &&& list@[k].insert_version == self@[k].insert_version
            &&& node_versions::copied(self@[k].payload, list@[k].payload)
        } by {
            assert(same_node(self.nodes@[k], list.nodes@[k]));
        }
        list
    }
}

/// The nodes agree position by position in their keys, links and levels.
pub open spec fn same_links<Key, Payload>(
    nodes: Seq<VWeaverNodeSt<Key, Payload>>,
    copy: Seq<VWeaverNodeSt<Key, Payload>>,
) -> bool {
    &&& copy.len() == nodes.len()
    &&& forall|i: int| #![trigger copy[i]]
        0 <= i < nodes.len() ==> {
            &&& copy[i].key == nodes[i].key
            &&& copy[i].next == nodes[i].next
            &&& copy[i].v_ridgy == nodes[i].v_ridgy
            &&& copy[i].k_ridgy == nodes[i].k_ridgy
            &&& copy[i].level == nodes[i].level
        }
}

/// The two nodes agree but for the payload, of which `copy` holds a clone.
pub open spec fn same_node<Key, Payload: Clone>(
    node: VWeaverNodeSt<Key, Payload>,
    copy: VWeaverNodeSt<Key, Payload>,
) -> bool {
    &&& copy.next == node.next
    &&& copy.v_ridgy == node.v_ridgy
    &&& copy.k_ridgy == node.k_ridgy
    &&& copy.key == node.key
    &&& copy.insert_version == node.insert_version
    &&& copy.level == node.level
    &&& node_versions::copied(node.payload, copy.payload)
}

impl<Key, Payload> VWeaverVersionIterator<'_, Key, Payload> {
    /// The nodes of the list that is walked.
    pub closed spec fn nodes(&self) -> Seq<VWeaverNodeSt<Key, Payload>> {
        self.list.nodes()
    }

    /// How many versions, tombstones included, are still ahead.
    pub closed spec fn rest(&self) -> int {
        match self.current {
            Some(at) => at + 1,
            None => 0,
        }
    }

    /// The iterator stands on a node of its list.
    pub closed spec fn wf(&self) -> bool {
        &&& self.list.wf()
        &&& self.current matches Some(at) ==> at < self.list.nodes().len()
    }

    /// The position of the newest live version that is still ahead.
    pub fn next(&mut self) -> (item: WeaverNodeLink)
        requires
            old(self).wf(),
        ensures
            final(self).wf(),
            final(self).nodes() == old(self).nodes(),
            ({
                let at = node_versions::live_below(
                    versions(old(self).nodes()),
                    old(self).rest() - 1,
                );
                if at < 0 {
                    item is None && final(self).rest() == 0
                } else {
                    &&& item matches Some(p)
                    &&& p == at
                    &&& final(self).rest() == at
                }
            }),
    {
        loop
            invariant
                self.wf(),
                self.nodes() == old(self).nodes(),
                node_versions::live_below(versions(self.nodes()), self.rest() - 1)
                    == node_versions::live_below(
                    versions(old(self).nodes()),
                    old(self).rest() - 1,
                ),
            decreases self.rest(),
        {
            let curr: usize = match self.current {
                Some(curr) => curr,
                None => {
                    return None;
                },
            };
            let node = &self.list.nodes[curr];
            self.current = node.next;
            if node.is_deleted() {
                continue;
            }
            return Some(curr);
        }
    }
}

} // verus!
