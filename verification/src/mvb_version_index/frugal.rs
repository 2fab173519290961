//! A version list with one skip link per version.
//!
//! Versions are kept oldest first, so the position of a node is its age rank. The node at
//! position `0` is the sentinel: it is live and sits on the highest level. Every later node
//! links to its predecessor and, through `v_ridgy`, to some older node.

use vstd::prelude::*;
use crate::random::coin_toss;
use crate::record_model::node_versions;
use crate::record_model::node_versions::NodeVersion;
use crate::record_model::Version;

verus! {

/// The level of a node that only repeats the linear link.
pub const FLAT_LEVEL: usize = 0;

/// The level of the first node of a list.
pub const SENTINEL_LEVEL: usize = usize::MAX;

/// One version of a record. A node without a payload is a tombstone.
pub struct FrugalNodeSt<Payload> {
    /// The position of the previous version.
    pub next: Option<usize>,
    /// The position of an older version to skip to.
    pub v_ridgy: Option<usize>,
    pub payload: Option<Payload>,
    pub insert_version: Version,
    pub level: usize,
}

/// All versions of one record, newest at the head.
pub struct AtomicFrugalList<Payload> {
    nodes: Vec<FrugalNodeSt<Payload>>,
}

/// Walks the live versions of a list from the newest to the oldest.
pub struct FrugalVersionIterator<'a, Payload> {
    list: &'a AtomicFrugalList<Payload>,
    current: Option<(usize, Version)>,
}

impl<Payload> FrugalNodeSt<Payload> {
    /// The version that this node stands for.
    pub open spec fn version(self) -> NodeVersion<Payload> {
        NodeVersion { payload: self.payload, insert_version: self.insert_version }
    }
}

/// The shape of a list: a live sentinel at the bottom, linear links without gaps, and skip
/// links that lead strictly downwards.
pub open spec fn linked<Payload>(nodes: Seq<FrugalNodeSt<Payload>>) -> bool {
    &&& nodes.len() > 0 ==> {
        &&& nodes[0].level == SENTINEL_LEVEL
        &&& nodes[0].payload is Some
        &&& nodes[0].next is None
        &&& nodes[0].v_ridgy is None
    }
    &&& forall|i: int| #![trigger nodes[i]]
        0 < i < nodes.len() ==> {
            &&& nodes[i].level < i
            &&& nodes[i].next == Some((i - 1) as usize)
            &&& nodes[i].v_ridgy matches Some(j) && j < i
        }
}

/// The versions that `nodes` stand for, oldest first.
pub open spec fn versions<Payload>(nodes: Seq<FrugalNodeSt<Payload>>) -> Seq<
    NodeVersion<Payload>,
> {
    nodes.map_values(|n: FrugalNodeSt<Payload>| n.version())
}

/// The position at which a search for `version` that starts at `from` stops: it takes the
/// skip link while the node behind it is still too new, and the linear link otherwise.
pub open spec fn reached<Payload>(
    nodes: Seq<FrugalNodeSt<Payload>>,
    from: int,
    version: Version,
) -> int
    decreases from,
{
    if from <= 0 || nodes[from].insert_version <= version {
        from
    } else {
        match nodes[from].v_ridgy {
            Some(j) => if j < from && nodes[j as int].insert_version > version {
                reached(nodes, j as int, version)
            } else {
                reached(nodes, from - 1, version)
            },
            None => reached(nodes, from - 1, version),
        }
    }
}

/// The node that a search for `version` from position `from` hands out.
pub open spec fn searched<Payload>(
    nodes: Seq<FrugalNodeSt<Payload>>,
    from: int,
    version: Version,
    allow_tombstone: bool,
) -> Option<FrugalNodeSt<Payload>> {
    let n = nodes[reached(nodes, from, version)];
    if n.insert_version <= version && (allow_tombstone || n.payload is Some) {
        Some(n)
    } else {
        None
    }
}

/// In a list whose versions ascend, a search stops at the newest version that the snapshot
/// may see, whatever skip links the coin tosses left behind.
pub proof fn lemma_reached_is_latest<Payload>(
    nodes: Seq<FrugalNodeSt<Payload>>,
    from: int,
    version: Version,
)
    requires
        linked(nodes),
        node_versions::ordered(versions(nodes)),
        0 <= from < nodes.len(),
    ensures
        0 <= reached(nodes, from, version) <= from,
        node_versions::latest_at(versions(nodes), from, version) >= 0 ==> reached(nodes, from, version)
            == node_versions::latest_at(versions(nodes), from, version),
        node_versions::latest_at(versions(nodes), from, version) < 0 ==> reached(nodes, from, version) == 0
            && nodes[0].insert_version > version,
    decreases from,
{
    let s = versions(nodes);
    if from > 0 && nodes[from].insert_version > version {
        let j = nodes[from].v_ridgy->0;
        if nodes[j as int].insert_version > version {
            lemma_reached_is_latest(nodes, j as int, version);
            node_versions::lemma_latest_skips(s, j as int, from, version);
        } else {
            lemma_reached_is_latest(nodes, from - 1, version);
        }
    } else if from == 0 {
        assert(s[0] == nodes[0].version());
        reveal_with_fuel(node_versions::latest_at, 2);
    }
}

/// The level of a tower that is raised above `below`: one more, which wraps to the lowest
/// level above the sentinel.
pub open spec fn level_above(below: usize) -> usize {
    if below == SENTINEL_LEVEL {
        FLAT_LEVEL
    } else {
        (below + 1) as usize
    }
}

/// The first node from `from` down the skip links that is at least `level` high.
pub open spec fn tower_base<Payload>(
    nodes: Seq<FrugalNodeSt<Payload>>,
    from: int,
    level: usize,
) -> int
    decreases from,
{
    if from <= 0 || nodes[from].level >= level {
        from
    } else {
        match nodes[from].v_ridgy {
            Some(j) => if j < from {
                tower_base(nodes, j as int, level)
            } else {
                from
            },
            None => from,
        }
    }
}

/// The node that a flat append puts above `nodes`.
pub open spec fn flat_node<Payload>(
    nodes: Seq<FrugalNodeSt<Payload>>,
    payload: Option<Payload>,
    insert_version: Version,
) -> FrugalNodeSt<Payload> {
    let head = (nodes.len() - 1) as usize;
    FrugalNodeSt {
        next: Some(head),
        v_ridgy: Some(head),
        payload,
        insert_version,
        level: FLAT_LEVEL,
    }
}

/// The node that a tower append puts above `nodes`.
pub open spec fn tower_node<Payload>(
    nodes: Seq<FrugalNodeSt<Payload>>,
    payload: Option<Payload>,
    insert_version: Version,
) -> FrugalNodeSt<Payload> {
    let level = level_above(nodes.last().level);
    FrugalNodeSt {
        next: Some((nodes.len() - 1) as usize),
        v_ridgy: Some(tower_base(nodes, nodes.len() - 1, level) as usize),
        payload,
        insert_version,
        level,
    }
}

impl<Payload> FrugalNodeSt<Payload> {
    /// A node without links.
    fn new(payload: Option<Payload>, insert_version: Version, level: usize) -> (node: Self)
        ensures
            node == (FrugalNodeSt {
                next: None,
                v_ridgy: None,
                payload,
                insert_version,
                level,
            }),
    {
        Self::new_with(payload, insert_version, level, None, None)
    }

    /// A node made of its parts.
    pub fn new_with(
        payload: Option<Payload>,
        insert_version: Version,
        level: usize,
        next: Option<usize>,
        v_ridgy: Option<usize>,
    ) -> (node: Self)
        ensures
            node == (FrugalNodeSt { next, v_ridgy, payload, insert_version, level }),
    {
        FrugalNodeSt { next, v_ridgy, payload, insert_version, level }
    }

    /// Whether the node holds a payload.
    pub fn is_live(&self) -> (r: bool)
        ensures
            r == (self.payload is Some),
    {
        self.payload.is_some()
    }

    /// Whether the node is a tombstone.
    pub fn is_deleted(&self) -> (r: bool)
        ensures
            r == (self.payload is None),
    {
        !self.is_live()
    }
}

impl<Payload> AtomicFrugalList<Payload> {
    /// The nodes, oldest first.
    pub closed spec fn nodes(&self) -> Seq<FrugalNodeSt<Payload>> {
        self.nodes@
    }

    /// The list is linked as [`linked`] says.
    pub open spec fn wf(&self) -> bool {
        linked(self.nodes())
    }

    /// The versions, oldest first.
    pub open spec fn view(&self) -> Seq<NodeVersion<Payload>> {
        versions(self.nodes())
    }

    /// A list without versions.
    pub fn default() -> (list: Self)
        ensures
            list.wf(),
            list.nodes() == Seq::<FrugalNodeSt<Payload>>::empty(),
    {
        AtomicFrugalList { nodes: Vec::new() }
    }

    /// A list whose only version is live since `insert_version`.
    pub fn new(payload: Payload, insert_version: Version) -> (list: Self)
        ensures
            list.wf(),
            list@ == seq![NodeVersion { payload: Some(payload), insert_version }],
    {
        let mut nodes = Vec::new();
        nodes.push(FrugalNodeSt::new(Some(payload), insert_version, SENTINEL_LEVEL));
        let list = AtomicFrugalList { nodes };
        assert(list@ =~= seq![NodeVersion { payload: Some(payload), insert_version }]);
        list
    }

    /// The newest node.
    fn load_read(&self) -> (node: &FrugalNodeSt<Payload>)
        requires
            self.nodes().len() > 0,
        ensures
            *node == self.nodes().last(),
    {
        &self.nodes[self.nodes.len() - 1]
    }

    /// A copy of the payload of the newest version.
    pub fn newest_payload(&self) -> (payload: Payload) where Payload: Clone
        requires
            self@.len() > 0,
            self@.last().payload is Some,
        ensures
            cloned(self@.last().payload->0, payload),
    {
        self.load_read().payload.as_ref().unwrap().clone()
    }

    /// Whether the newest version is live.
    pub fn is_live(&self) -> (r: bool)
        requires
            self@.len() > 0,
        ensures
            r == (self@.last().payload is Some),
    {
        self.load_read().is_live()
    }

    /// Puts a tombstone above the newest version, unless it is one already.
    pub fn delete(&mut self, insert_version: Version)
        requires
            old(self).wf(),
            old(self)@.len() > 0,
        ensures
            final(self).wf(),
            old(self)@.last().payload is None ==> final(self).nodes() == old(self).nodes(),
            old(self)@.last().payload is Some ==> {
                &&& final(self)@ == old(self)@.push(NodeVersion { payload: None, insert_version })
                &&& final(self).nodes().drop_last() == old(self).nodes()
            },
    {
        if self.is_live() {
            self.append(None, insert_version)
        }
    }

    /// Puts a version above the newest one.
    pub fn push(&mut self, payload: Option<Payload>, insert_version: Version)
        requires
            old(self).wf(),
            old(self)@.len() > 0,
        ensures
            final(self).wf(),
            final(self)@ == old(self)@.push(NodeVersion { payload, insert_version }),
            final(self).nodes().drop_last() == old(self).nodes(),
    {
        self.append(payload, insert_version);
    }

    /// Puts a version above the newest one. A coin toss decides whether the new node raises
    /// a tower or stays flat; what the list holds does not depend on it.
    pub fn append(&mut self, payload: Option<Payload>, insert_version: Version)
        requires
            old(self).wf(),
            old(self)@.len() > 0,
        ensures
            final(self).wf(),
            final(self)@ == old(self)@.push(NodeVersion { payload, insert_version }),
            ({
                let nodes = old(self).nodes();
                ||| final(self).nodes() == nodes.push(flat_node(nodes, payload, insert_version))
                ||| final(self).nodes() == nodes.push(tower_node(nodes, payload, insert_version))
            }),
            final(self).nodes().drop_last() == old(self).nodes(),
    {
        if coin_toss() {
            self.append_tower(payload, insert_version)
        } else {
            self.append_next(payload, insert_version)
        }
        assert(self.nodes().drop_last() =~= old(self).nodes());
        assert(self@ =~= old(self)@.push(NodeVersion { payload, insert_version }));
    }

    /// Puts a flat node above the newest one.
    pub fn append_next(&mut self, payload: Option<Payload>, insert_version: Version)
        requires
            old(self).wf(),
            old(self)@.len() > 0,
        ensures
            final(self).wf(),
            final(self).nodes() == old(self).nodes().push(
                flat_node(old(self).nodes(), payload, insert_version),
            ),
    {
        let head: usize = self.nodes.len() - 1;
        self.nodes.push(
            FrugalNodeSt::new_with(payload, insert_version, FLAT_LEVEL, Some(head), Some(head)),
        );
    }

    /// Puts a node above the newest one that is one level higher and skips to the next node
    /// of at least its own level.
    pub fn append_tower(&mut self, payload: Option<Payload>, insert_version: Version)
        requires
            old(self).wf(),
            old(self)@.len() > 0,
        ensures
            final(self).wf(),
            final(self).nodes() == old(self).nodes().push(
                tower_node(old(self).nodes(), payload, insert_version),
            ),
    {
        let head: usize = self.nodes.len() - 1;
        let level: usize = self.nodes[head].level.wrapping_add(1);
        let mut curr: usize = head;
        while self.nodes[curr].level < level
            invariant
                self.nodes() == old(self).nodes(),
                linked(self.nodes@),
                head == self.nodes@.len() - 1,
                curr <= head,
                tower_base(self.nodes@, curr as int, level) == tower_base(
                    self.nodes@,
                    head as int,
                    level,
                ),
            decreases curr,
        {
            assert(curr > 0);
            curr = self.nodes[curr].v_ridgy.unwrap();
        }
        self.nodes.push(
            FrugalNodeSt::new_with(payload, insert_version, level, Some(head), Some(curr)),
        );
    }

    /// The node that a search for `look_up_version` from position `curr` comes to.
    pub fn find_from(
        &self,
        curr: Option<usize>,
        look_up_version: Version,
        allow_tombstone: bool,
    ) -> (found: Option<&FrugalNodeSt<Payload>>)
        requires
            self.wf(),
            curr matches Some(c) ==> c < self@.len(),
        ensures
            curr is None ==> found is None,
            curr matches Some(c) ==> {
                &&& found == (match searched(
                    self.nodes(),
                    c as int,
                    look_up_version,
                    allow_tombstone,
                ) {
                    Some(node) => Some(&node),
                    None => None,
                })
                &&& node_versions::ordered(self@) ==> versions_found(found) == node_versions::lookup(
                    self@,
                    c as int,
                    look_up_version,
                    allow_tombstone,
                )
            },
    {
        let start: usize = match curr {
            Some(c) => c,
            None => {
                return None;
            },
        };
        let mut curr: usize = start;
        while self.nodes[curr].level < SENTINEL_LEVEL && self.nodes[curr].insert_version
            > look_up_version
            invariant
                linked(self.nodes@),
                curr <= start < self.nodes@.len(),
                reached(self.nodes@, curr as int, look_up_version) == reached(
                    self.nodes@,
                    start as int,
                    look_up_version,
                ),
            decreases curr,
        {
            assert(curr > 0);
            let node = &self.nodes[curr];
            let skip: usize = node.v_ridgy.unwrap();
            curr = if self.nodes[skip].insert_version > look_up_version {
                skip
            } else {
                node.next.unwrap()
            };
        }
        proof {
            assert(self.nodes@[curr as int].level == SENTINEL_LEVEL ==> curr == 0);
            assert(reached(self.nodes@, curr as int, look_up_version) == curr);
            if node_versions::ordered(self@) {
                lemma_reached_is_latest(self.nodes@, start as int, look_up_version);
                node_versions::lemma_latest_bounds(self@, start as int, look_up_version);
            }
        }
        let node = &self.nodes[curr];
        if node.insert_version <= look_up_version && (allow_tombstone || node.is_live()) {
            Some(node)
        } else {
            None
        }
    }

    /// The live node that a reader of snapshot `look_up_version` sees.
    pub fn find(&self, look_up_version: Version) -> (found: Option<&FrugalNodeSt<Payload>>)
        requires
            self.wf(),
            self@.len() > 0,
        ensures
            found == (match searched(self.nodes(), self@.len() - 1, look_up_version, false) {
                Some(node) => Some(&node),
                None => None,
            }),
            node_versions::ordered(self@) ==> versions_found(found) == node_versions::lookup(
                self@,
                self@.len() - 1,
                look_up_version,
                false,
            ),
    {
        self.find_from(Some(self.nodes.len() - 1), look_up_version, false)
    }

    /// The node that a reader of snapshot `look_up_version` sees, be it a tombstone.
    pub fn find_any(&self, look_up_version: Version) -> (found: Option<&FrugalNodeSt<Payload>>)
        requires
            self.wf(),
            self@.len() > 0,
        ensures
            found == (match searched(self.nodes(), self@.len() - 1, look_up_version, true) {
                Some(node) => Some(&node),
                None => None,
            }),
            node_versions::ordered(self@) ==> versions_found(found) == node_versions::lookup(
                self@,
                self@.len() - 1,
                look_up_version,
                true,
            ),
    {
        self.find_from(Some(self.nodes.len() - 1), look_up_version, true)
    }
}

/// The version of a node that was found.
pub open spec fn versions_found<Payload>(found: Option<&FrugalNodeSt<Payload>>) -> Option<
    NodeVersion<Payload>,
> {
    match found {
        Some(node) => Some(node.version()),
        None => None,
    }
}

impl<Payload: Clone> AtomicFrugalList<Payload> {
    /// A list of its own with the same versions. Its skip links come from new coin tosses.
    pub fn clone(&self) -> (list: Self)
        requires
            self.wf(),
        ensures
            list.wf(),
            node_versions::copies(self@, list@),
    {
        if self.nodes.len() == 0 {
            return Self::default();
        }
        let sentinel = &self.nodes[0];
        let mut list = Self::new(
            sentinel.payload.as_ref().unwrap().clone(),
            sentinel.insert_version,
        );
        let mut i: usize = 1;
        while i < self.nodes.len()
            invariant
                self.wf(),
                list.wf(),
                1 <= i <= self@.len(),
                list@.len() == i,
                node_versions::copies(self@.take(i as int), list@),
            decreases self.nodes@.len() - i,
        {
            let node = &self.nodes[i];
            let payload = node.payload.clone();
            let ghost before = list@;
            list.append(payload, node.insert_version);
            assert(self@.take(i + 1) =~= self@.take(i as int).push(self@[i as int]));
            assert forall|k: int| #![trigger list@[k]] 0 <= k < i + 1 implies {
                &&& list@[k].insert_version == self@.take(i + 1)[k].insert_version
                &&& node_versions::copied(self@.take(i + 1)[k].payload, list@[k].payload)
            } by {
                if k < i {
                    assert(list@[k] == before[k]);
                    assert(self@.take(i + 1)[k] == self@.take(i as int)[k]);
                }
            }
            i += 1;
        }
        assert(self@.take(i as int) =~= self@);
        list
    }
}

impl<Payload> AtomicFrugalList<Payload> {
    /// An iterator over the live versions, newest first.
    pub fn iter(&self) -> (iter: FrugalVersionIterator<'_, Payload>)
        requires
            self.wf(),
        ensures
            iter.wf(),
            iter.nodes() == self.nodes(),
            iter.rest() == self@.len(),
    {
        let n: usize = self.nodes.len();
        if n == 0 {
            FrugalVersionIterator { list: self, current: None }
        } else {
            FrugalVersionIterator {
                list: self,
                current: Some((n - 1, self.nodes[n - 1].insert_version)),
            }
        }
    }

    /// The number of live versions.
    pub fn len(&self) -> (n: usize)
        requires
            self.wf(),
        ensures
            n == node_versions::live_count(self@),
    {
        let total: usize = self.nodes.len();
        let mut iter = self.iter();
        let mut count: usize = 0;
        let ghost mut rest: int = self@.len() as int;
        assert(self@.take(rest) =~= self@);
        loop
            invariant
                iter.wf(),
                iter.nodes() == self.nodes(),
                iter.rest() == rest,
                0 <= rest <= self@.len(),
                count + node_versions::live_count(self@.take(rest)) == node_versions::live_count(self@),
                count + rest <= self@.len() == total,
            ensures
                count == node_versions::live_count(self@),
            decreases rest,
        {
            let before = iter.next();
            proof {
                node_versions::lemma_live_below(self@, rest - 1);
                rest = iter.rest();
            }
            if before.is_none() {
                break;
            }
            count += 1;
        }
        count
    }
}

impl<Payload> FrugalVersionIterator<'_, Payload> {
    /// The nodes of the list that is walked.
    pub closed spec fn nodes(&self) -> Seq<FrugalNodeSt<Payload>> {
        self.list.nodes()
    }

    /// How many versions, tombstones included, are still ahead.
    pub closed spec fn rest(&self) -> int {
        match self.current {
            Some((at, _)) => at + 1,
            None => 0,
        }
    }

    /// The iterator stands on a node of its list.
    pub closed spec fn wf(&self) -> bool {
        &&& self.list.wf()
        &&& self.current matches Some((at, version)) ==> {
            &&& at < self.list.nodes().len()
            &&& version == self.list.nodes()[at as int].insert_version
        }
    }

    /// The position and insert version of the newest live version that is still ahead.
    pub fn next(&mut self) -> (item: Option<(usize, Version)>)
        requires
            old(self).wf(),
        ensures
            final(self).wf(),
            final(self).nodes() == old(self).nodes(),
            ({
                let at = node_versions::live_below(versions(old(self).nodes()), old(self).rest() - 1);
                if at < 0 {
                    item is None && final(self).rest() == 0
                } else {
                    &&& item matches Some((p, v))
                    &&& p == at
                    &&& v == old(self).nodes()[at].insert_version
                    &&& final(self).rest() == at
                }
            }),
    {
        loop
            invariant
                self.wf(),
                self.nodes() == old(self).nodes(),
                node_versions::live_below(versions(self.nodes()), self.rest() - 1) == node_versions::live_below(
                    versions(old(self).nodes()),
                    old(self).rest() - 1,
                ),
            decreases self.rest(),
        {
            let (curr, version) = match self.current {
                Some(c) => c,
                None => {
                    return None;
                },
            };
            let node = &self.list.nodes[curr];
            self.current = match node.next {
                Some(n) => Some((n, self.list.nodes[n].insert_version)),
                None => None,
            };
            if node.is_deleted() {
                continue;
            }
            return Some((curr, version));
        }
    }
}

} // verus!
