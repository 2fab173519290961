//! A B+ tree of records, whatever a record is.

use vstd::prelude::*;
use vstd::arithmetic::power2;
use crate::page_model::leaf_page;
use crate::page_model::leaf_page::{Keyed, LeafPage};
use crate::page_model::node;
use crate::page_model::node::{IndexPage, Node};
use crate::record_model::Key;
use crate::utils::count;

verus! {

/// The records of a tree, in ascending order of their keys, on leaf pages of at most
/// `NUM_RECORDS` records below index pages of at most `FAN_OUT` children.
pub struct RecordTree<const FAN_OUT: usize, const NUM_RECORDS: usize, Record> {
    root: Node<NUM_RECORDS, Record>,
    height: usize,
}

/// A dense subtree holds at least as many records as a binary tree of its height has leaves.
pub proof fn lemma_many_records<const NUM_RECORDS: usize, Record: Keyed>(
    tree: Node<NUM_RECORDS, Record>,
    lo: int,
    hi: int,
    height: nat,
    fan: nat,
)
    requires
        tree.wf(lo, hi, height, fan),
        tree.dense(height),
    ensures
        tree.records().len() >= power2::pow2((height - 1) as nat),
    decreases height,
{
    match tree {
        Node::Leaf(page) => {
            power2::lemma2_to64();
        },
        Node::Index(page) => {
            let children = page.children@;
            let below = (height - 1) as nat;
            let a = children[0];
            let b = children[1];
            power2::lemma_pow2_unfold(below);
            lemma_many_records(
                a,
                node::bound(page.keys@, lo, hi, 0),
                node::bound(page.keys@, lo, hi, 1),
                below,
                fan,
            );
            lemma_many_records(
                b,
                node::bound(page.keys@, lo, hi, 1),
                node::bound(page.keys@, lo, hi, 2),
                below,
                fan,
            );
            Node::lemma_flat_split(children, 0);
            Node::lemma_flat_split(children.skip(1), 0);
            assert(children.skip(1)[0] == b);
            assert(tree.records() == Node::flat(children));
            assert(tree.records().len() >= a.records().len() + b.records().len());
        },
    }
}

/// There are at most as many records as keys.
pub proof fn lemma_few_records<Record: Keyed>(s: Seq<Record>, lo: int, hi: int)
    requires
        leaf_page::sorted(s),
        leaf_page::within(s, lo, hi),
        lo <= hi,
    ensures
        s.len() <= hi - lo,
    decreases s.len(),
{
    if s.len() > 0 {
        let t = s.drop_last();
        let m = s.last().key_of() as int;
        assert forall|i: int| 0 <= i < t.len() implies lo < (#[trigger] t[i]).key_of() <= m
            - 1 by {
            assert(t[i] == s[i]);
        }
        lemma_few_records(t, lo, m - 1);
    }
}

impl<const FAN_OUT: usize, const NUM_RECORDS: usize, Record: Keyed> RecordTree<
    FAN_OUT,
    NUM_RECORDS,
    Record,
> {
    /// All records, in ascending order of their keys.
    pub closed spec fn view(&self) -> Seq<Record> {
        self.root.records()
    }

    /// The number of levels.
    pub closed spec fn levels(&self) -> nat {
        self.height as nat
    }

    /// Pages are linked and filled as they have to be.
    pub closed spec fn wf(&self) -> bool {
        &&& 3 <= FAN_OUT < usize::MAX
        &&& NUM_RECORDS >= 2
        &&& self.root.wf(-1, Key::MAX as int, self.height as nat, FAN_OUT as nat)
        &&& self.height > 1 ==> self.root.dense(self.height as nat)
    }

    /// The position of the first record on the leaf for `key`.
    pub closed spec fn page_start(&self, key: Key) -> int {
        self.root.before(key, self.height as nat).len() as int
    }

    /// The position behind the last record on the leaf for `key`.
    pub closed spec fn page_end(&self, key: Key) -> int {
        self.page_start(key) + self.root.leaf_for(key, self.height as nat)@.len()
    }

    /// The largest key that belongs to the leaf for `key`.
    pub closed spec fn fence(&self, key: Key) -> int {
        self.root.fence_hi(Key::MAX as int, key, self.height as nat)
    }

    /// The records on the leaf for `key`.
    pub open spec fn page_of(&self, key: Key) -> Seq<Record> {
        self@.subrange(self.page_start(key), self.page_end(key))
    }

    /// Whether some record has the key.
    pub open spec fn has(&self, key: Key) -> bool {
        exists|i: int| 0 <= i < self@.len() && (#[trigger] self@[i]).key_of() == key
    }

    /// How many leaves hold the keys from `lower` to `upper`; the leaf for `lower` in any case.
    pub open spec fn pages_from(&self, lower: Key, upper: Key) -> nat
        decreases Key::MAX - lower,
    {
        if self.fence(lower) >= upper || !(lower <= self.fence(lower) < Key::MAX) {
            1
        } else {
            1 + self.pages_from((self.fence(lower) + 1) as Key, upper)
        }
    }

    /// What a leaf holds: all records between what lies below `key` and what lies above the
    /// fence.
    pub proof fn lemma_page(&self, key: Key)
        requires
            self.wf(),
        ensures
            leaf_page::sorted(self@),
            0 <= self.page_start(key) <= self.page_end(key) <= self@.len(),
            self@.len() > 0 ==> self.page_start(key) < self.page_end(key),
            key <= self.fence(key) <= Key::MAX,
            forall|i: int| 0 <= i < self.page_start(key) ==> (#[trigger] self@[i]).key_of() < key,
            forall|i: int|
                0 <= i < self.page_end(key) ==> (#[trigger] self@[i]).key_of() <= self.fence(key),
            forall|i: int|
                self.page_end(key) <= i < self@.len() ==> (#[trigger] self@[i]).key_of()
                    > self.fence(key),
    {
        self.lemma_leaf(key);
    }

    /// The leaf for `key`, on its page and in the whole.
    proof fn lemma_leaf(&self, key: Key)
        requires
            self.wf(),
        ensures
            leaf_page::sorted(self@),
            0 <= self.page_start(key) <= self.page_end(key) <= self@.len(),
            self@.len() > 0 ==> self.page_start(key) < self.page_end(key),
            key <= self.fence(key) <= Key::MAX,
            forall|i: int| 0 <= i < self.page_start(key) ==> (#[trigger] self@[i]).key_of() < key,
            forall|i: int|
                0 <= i < self.page_end(key) ==> (#[trigger] self@[i]).key_of() <= self.fence(key),
            forall|i: int|
                self.page_end(key) <= i < self@.len() ==> (#[trigger] self@[i]).key_of()
                    > self.fence(key),
            self.page_of(key) == self.root.leaf_for(key, self.height as nat)@,
            leaf_page::sorted(self.root.leaf_for(key, self.height as nat)@),
    {
        let h = self.height as nat;
        let lo = -1int;
        let hi = Key::MAX as int;
        self.root.lemma_records(lo, hi, h, FAN_OUT as nat);
        self.root.lemma_leaf_split(lo, hi, h, FAN_OUT as nat, key);
        let b = self.root.before(key, h);
        let m = self.root.leaf_for(key, h)@;
        let a = self.root.after(key, h);
        assert(self@ =~= b + m + a);
        assert(self.page_of(key) =~= m);
        assert forall|i: int| 0 <= i < self.page_start(key) implies (
        #[trigger] self@[i]).key_of() < key by {
            assert(self@[i] == b[i]);
        }
        assert forall|i: int| 0 <= i < self.page_end(key) implies (#[trigger] self@[i]).key_of()
            <= self.fence(key) by {
            if i < b.len() {
                assert(self@[i] == b[i]);
            } else {
                assert(self@[i] == m[i - b.len()]);
            }
        }
        assert forall|i: int| self.page_end(key) <= i < self@.len() implies (
        #[trigger] self@[i]).key_of() > self.fence(key) by {
            assert(self@[i] == a[i - b.len() - m.len()]);
        }
        if self.height == 1 {
            assert(self.root is Leaf);
        }
    }

    /// All keys up to the fence of a key belong to the same leaf.
    proof fn lemma_same_fence(&self, key: Key, other: Key)
        requires
            self.wf(),
            key <= other <= self.fence(key),
        ensures
            self.fence(other) == self.fence(key),
    {
        if self.levels() > 1 {
            self.lemma_ends(key);
            self.lemma_ends(other);
            let fences = self.root().fences(Key::MAX, self.levels());
            let i = Self::fence_index(fences, key, 0);
            Self::lemma_fence_index(fences, key, 0);
            assert(node::between(fences, -1, i, key));
            assert(self.fence(key) == fences[i]);
            assert(node::between(fences, -1, i, other));
            assert(self.fence(other) == fences[i]);
        } else {
            assert(self.root is Leaf);
        }
    }

    /// The first fence from a position on that is not below the key.
    spec fn fence_index(fences: Seq<Key>, key: Key, from: int) -> int
        decreases fences.len() - from,
    {
        if from < 0 || from >= fences.len() || key <= fences[from] {
            from
        } else {
            Self::fence_index(fences, key, from + 1)
        }
    }

    /// There is such a fence.
    proof fn lemma_fence_index(fences: Seq<Key>, key: Key, from: int)
        requires
            0 <= from < fences.len(),
            from > 0 ==> fences[from - 1] < key,
            fences.last() == Key::MAX,
        ensures
            from <= Self::fence_index(fences, key, from) < fences.len(),
            node::between(fences, -1, Self::fence_index(fences, key, from), key),
        decreases fences.len() - from,
    {
        if key > fences[from] {
            Self::lemma_fence_index(fences, key, from + 1);
        }
    }

    /// The fences of the keys from `lower` to `upper`.
    pub open spec fn fences_met(&self, lower: Key, upper: Key) -> Set<int> {
        Set::new(|f: int| exists|k: Key| lower <= k <= upper && #[trigger] self.fence(k) == f)
    }

    /// A scan comes by each leaf that some key of its interval belongs to once, and by one leaf if
    /// the interval is empty.
    pub proof fn law_leaves_are_met_once(&self, lower: Key, upper: Key)
        requires
            self.wf(),
        ensures
            lower <= upper ==> self.fences_met(lower, upper).finite() && self.pages_from(
                lower,
                upper,
            ) == self.fences_met(lower, upper).len(),
            lower > upper ==> self.pages_from(lower, upper) == 1,
        decreases Key::MAX - lower,
    {
        self.lemma_page(lower);
        let f = self.fence(lower);
        if lower <= upper {
            let met = self.fences_met(lower, upper);
            assert(met.contains(f));
            if f >= upper {
                assert forall|g: int| met.contains(g) implies g == f by {
                    let k = choose|k: Key| lower <= k <= upper && #[trigger] self.fence(k) == g;
                    self.lemma_same_fence(lower, k);
                }
                assert(met =~= Set::<int>::empty().insert(f));
            } else {
                let next = (f + 1) as Key;
                self.law_leaves_are_met_once(next, upper);
                let rest = self.fences_met(next, upper);
                assert forall|g: int| rest.contains(g) implies g > f by {
                    let k = choose|k: Key| next <= k <= upper && #[trigger] self.fence(k) == g;
                    self.lemma_page(k);
                }
                assert forall|g: int| met.contains(g) <==> g == f || rest.contains(g) by {
                    if met.contains(g) {
                        let k = choose|k: Key|
                            lower <= k <= upper && #[trigger] self.fence(k) == g;
                        if k <= f {
                            self.lemma_same_fence(lower, k);
                        } else {
                            assert(next <= k <= upper && self.fence(k) == g);
                        }
                    }
                    if rest.contains(g) {
                        let k = choose|k: Key|
                            next <= k <= upper && #[trigger] self.fence(k) == g;
                        assert(lower <= k <= upper && self.fence(k) == g);
                    }
                }
                assert(met =~= rest.insert(f));
            }
        }
    }

    /// The tree is flat: keys do not suffice for a tree of more levels.
    pub proof fn lemma_levels(&self)
        requires
            self.wf(),
        ensures
            1 <= self.levels() <= 65,
            self.levels() > 1 ==> self@.len() >= power2::pow2((self.levels() - 1) as nat),
    {
        let h = self.height as nat;
        let lo = -1int;
        let hi = Key::MAX as int;
        self.root.lemma_records(lo, hi, h, FAN_OUT as nat);
        lemma_few_records(self@, lo, hi);
        if h > 1 {
            lemma_many_records(self.root, lo, hi, h, FAN_OUT as nat);
            power2::lemma2_to64();
            if h > 65 {
                power2::lemma_pow2_strictly_increases(64, (h - 1) as nat);
            }
        }
    }

    /// An empty tree.
    pub fn new() -> (tree: Self)
        requires
            3 <= FAN_OUT < usize::MAX,
            NUM_RECORDS >= 2,
        ensures
            tree.wf(),
            tree@ == Seq::<Record>::empty(),
            tree.levels() == 1,
    {
        RecordTree { root: Node::Leaf(LeafPage::new()), height: 1 }
    }

    /// The number of levels.
    pub fn height(&self) -> (h: usize)
        ensures
            h == self.levels(),
    {
        self.height
    }

    /// How many pages the tree is made of.
    pub closed spec fn page_total(&self) -> nat {
        self.root.pages()
    }

    /// The pages of the tree are those of its root and of all that lies below.
    pub proof fn law_page_total(&self)
        ensures
            self.page_total() == self.root().pages(),
    {
    }

    /// The number of levels, found by going down.
    pub fn measured_height(&self) -> (h: usize)
        requires
            self.wf(),
        ensures
            h == self.levels(),
    {
        self.root.depth(
            Ghost(-1),
            Ghost(Key::MAX as int),
            Ghost(self.height as nat),
            Ghost(FAN_OUT as nat),
        )
    }

    /// Counts the pages.
    pub fn count_pages(&self) -> (n: usize)
        requires
            self.wf(),
        ensures
            n == count::saturated(self.page_total()),
    {
        self.root.count_pages(
            Ghost(-1),
            Ghost(Key::MAX as int),
            Ghost(self.height as nat),
            Ghost(FAN_OUT as nat),
        )
    }

    /// The pages.
    pub closed spec fn root(&self) -> Node<NUM_RECORDS, Record> {
        self.root
    }

    /// The right ends of the leaves as they are read from the separators.
    pub fn right_ends(&self) -> (ends: Vec<Key>)
        requires
            self.wf(),
        ensures
            ends@ == self.root().right_ends(Key::MAX, self.levels()),
    {
        let mut ends: Vec<Key> = Vec::new();
        self.root.collect_ends(
            Key::MAX,
            &mut ends,
            Ghost(-1),
            Ghost(Key::MAX as int),
            Ghost(self.height as nat),
            Ghost(FAN_OUT as nat),
        );
        assert(Seq::<Key>::empty() + ends@ =~= ends@);
        ends
    }

    /// The fences of the leaves, and which of the right ends are such.
    pub proof fn lemma_ends(&self, key: Key)
        requires
            self.wf(),
            self.levels() > 1,
        ensures
            ({
                let fences = self.root().fences(Key::MAX, self.levels());
                let ends = self.root().right_ends(Key::MAX, self.levels());
                &&& fences.len() > 0
                &&& fences.last() == Key::MAX
                &&& node::ascending(fences)
                &&& forall|i: int|
                    0 <= i < fences.len() && node::between(fences, -1, i, key) ==> self.fence(key)
                        == #[trigger] fences[i]
                &&& self.levels() <= 3 ==> ends.len() == fences.len() && ends.drop_last()
                    == fences.drop_last()
            }),
    {
        let h = self.height as nat;
        self.root.lemma_fences(-1, Key::MAX, h, FAN_OUT as nat, key);
        if h <= 3 {
            self.root.lemma_right_ends(-1, Key::MAX, h, FAN_OUT as nat, Key::MAX);
        }
    }

    /// On three or more levels there are as many right ends as leaves, and each of them is the
    /// fence of its leaf or of an earlier one.
    pub proof fn law_right_ends(&self)
        requires
            self.wf(),
            self.levels() >= 3,
        ensures
            node::at_most_behind(
                self.root().right_ends(Key::MAX, self.levels()),
                self.root().fences(Key::MAX, self.levels()),
            ),
    {
        self.root.law_right_ends(-1, Key::MAX, self.height as nat, FAN_OUT as nat, Key::MAX);
    }

    /// The leaf for `key`, and the largest key that belongs to it.
    pub fn page(&self, key: Key) -> (found: (&LeafPage<NUM_RECORDS, Record>, Key))
        requires
            self.wf(),
        ensures
            found.0@ == self.page_of(key),
            found.1 == self.fence(key),
            leaf_page::sorted(found.0@),
    {
        proof {
            self.lemma_leaf(key);
        }
        self.root.leaf(
            key,
            Key::MAX,
            Ghost(-1),
            Ghost(self.height as nat),
            Ghost(FAN_OUT as nat),
        )
    }

    /// The record with the key.
    pub fn find(&self, key: Key) -> (found: Option<&Record>)
        requires
            self.wf(),
        ensures
            found matches Some(r) ==> {
                &&& leaf_page::rank(self@, key) < self@.len()
                &&& *r == self@[leaf_page::rank(self@, key)]
                &&& r.key_of() == key
            },
            found is None ==> !self.has(key),
    {
        let (page, _) = self.page(key);
        proof {
            self.lemma_page(key);
            self.lemma_in_page(key);
        }
        match page.search(key) {
            Ok(at) => Some(page.record_data.get_unchecked(at)),
            Err(_) => None,
        }
    }

    /// What is known of the leaf for `key` carries over to the whole.
    pub proof fn lemma_in_page(&self, key: Key)
        requires
            self.wf(),
        ensures
            leaf_page::rank(self@, key) == self.page_start(key) + leaf_page::rank(
                self.page_of(key),
                key,
            ),
            0 <= leaf_page::rank(self@, key) <= self@.len(),
            self.has(key) ==> exists|i: int|
                0 <= i < self.page_of(key).len() && (#[trigger] self.page_of(key)[i]).key_of()
                    == key,
    {
        self.lemma_leaf(key);
        let start = self.page_start(key);
        let page = self.page_of(key);
        leaf_page::lemma_rank(page, key);
        let r = leaf_page::rank(page, key);
        assert forall|i: int| 0 <= i < start + r implies (#[trigger] self@[i]).key_of() < key by {
            if i >= start {
                assert(self@[i] == page[i - start]);
            }
        }
        assert forall|i: int| start + r <= i < self@.len() implies (#[trigger] self@[i]).key_of()
            >= key by {
            if i < self.page_end(key) {
                assert(self@[i] == page[i - start]);
            }
        }
        leaf_page::lemma_rank_is(self@, key, start + r);
        if self.has(key) {
            let i = choose|i: int| 0 <= i < self@.len() && (#[trigger] self@[i]).key_of() == key;
            assert(self@[i] == page[i - start]);
        }
    }

    /// The record with the key, to be changed in place. Its key has to stay.
    pub fn get_mut(&mut self, key: Key) -> (record: &mut Record)
        requires
            old(self).wf(),
            old(self).has(key),
        ensures
            *record == old(self)@[leaf_page::rank(old(self)@, key)],
            record.key_of() == key,
            0 <= leaf_page::rank(old(self)@, key) < old(self)@.len(),
            final(self).levels() == old(self).levels(),
            final(record).key_of() == key ==> final(self).wf() && final(self)@ == old(self)@.update(
                leaf_page::rank(old(self)@, key),
                *final(record),
            ),
    {
        let ghost h = self.height as nat;
        let ghost hi = Key::MAX as int;
        proof {
            self.lemma_leaf(key);
            self.lemma_in_page(key);
            self.root.lemma_leaf_split(-1, hi, h, FAN_OUT as nat, key);
        }
        let leaf = self.root.leaf_mut(
            key,
            Ghost(-1),
            Ghost(hi),
            Ghost(h),
            Ghost(FAN_OUT as nat),
        );
        let at = match leaf.search(key) {
            Ok(at) => at,
            Err(at) => at,
        };
        proof {
            let root = old(self).root;
            assert forall|n: Node<NUM_RECORDS, Record>, l: LeafPage<NUM_RECORDS, Record>|
                #[trigger] Node::patched(root, n, key, -1, hi, h, FAN_OUT as nat, l)
                    && l.wf() && l@.len() == leaf@.len() && l@ == leaf@.update(at as int, l@[at as int])
                    && l@[at as int].key_of() == key implies {
                &&& n.wf(-1, hi, h, FAN_OUT as nat)
                &&& n.records() == root.records().update(
                    leaf_page::rank(root.records(), key),
                    l@[at as int],
                )
                &&& h > 1 ==> n.dense(h)
            } by {
                Self::lemma_patch(root, n, key, h, l, at as int);
            }
        }
        leaf.record_data.get_unchecked_mut(at)
    }

    /// Another record with the same key on the leaf.
    proof fn lemma_patch(
        before: Node<NUM_RECORDS, Record>,
        after: Node<NUM_RECORDS, Record>,
        key: Key,
        height: nat,
        leaf: LeafPage<NUM_RECORDS, Record>,
        at: int,
    )
        requires
            before.wf(-1, Key::MAX as int, height, FAN_OUT as nat),
            height > 1 ==> before.dense(height),
            Node::patched(
                before,
                after,
                key,
                -1,
                Key::MAX as int,
                height,
                FAN_OUT as nat,
                leaf,
            ),
            leaf.wf(),
            0 <= at < before.leaf_for(key, height)@.len(),
            before.leaf_for(key, height)@[at].key_of() == key,
            leaf@ == before.leaf_for(key, height)@.update(at, leaf@[at]),
            leaf@[at].key_of() == key,
        ensures
            after.wf(-1, Key::MAX as int, height, FAN_OUT as nat),
            after.records() == before.records().update(
                leaf_page::rank(before.records(), key),
                leaf@[at],
            ),
            height > 1 ==> after.dense(height),
    {
        let hi = Key::MAX as int;
        let fan = FAN_OUT as nat;
        before.lemma_records(-1, hi, height, fan);
        before.lemma_leaf_split(-1, hi, height, fan, key);
        let page = before.leaf_for(key, height)@;
        assert forall|i: int, j: int| 0 <= i < j < leaf@.len() implies leaf@[i].key_of()
            < leaf@[j].key_of() by {
            assert(page[i].key_of() < page[j].key_of());
        }
        assert forall|i: int| 0 <= i < leaf@.len() implies before.fence_lo(-1, key, height) < (
        #[trigger] leaf@[i]).key_of() <= before.fence_hi(hi, key, height) by {
            assert(page[i].key_of() == leaf@[i].key_of());
        }
        assert(after.wf(-1, hi, height, fan));
        after.lemma_leaf_split(-1, hi, height, fan, key);
        let start = before.before(key, height).len() as int;
        let s = before.records();
        assert(s[start + at] == page[at]);
        leaf_page::lemma_rank(s, key);
        let r = leaf_page::rank(s, key);
        assert(r == start + at) by {
            if r < start + at {
                assert(s[r].key_of() < s[start + at].key_of());
            }
        }
        assert(after.records() =~= s.update(r, leaf@[at]));
    }

    /// Cuts pages in two, as far as needed, until the leaf for `key` has room.
    fn make_room(&mut self, key: Key)
        requires
            old(self).wf(),
        ensures
            final(self).wf(),
            final(self)@ == old(self)@,
            final(self).root.leaf_for(key, final(self).height as nat)@.len() < NUM_RECORDS,
            old(self).height <= final(self).height <= old(self).height + 1,
    {
        proof {
            self.lemma_levels();
        }
        let ghost h = self.height as nat;
        let ghost hi = Key::MAX as int;
        match self.root.split_for(key, FAN_OUT, Ghost(-1), Ghost(hi), Ghost(h)) {
            None => {},
            Some((sep, right)) => {
                let mut left = Node::Leaf(LeafPage::new());
                std::mem::swap(&mut left, &mut self.root);
                let mut keys: Vec<Key> = Vec::new();
                keys.push(sep);
                let mut children: Vec<Node<NUM_RECORDS, Record>> = Vec::new();
                children.push(left);
                children.push(right);
                proof {
                    assert(children@ =~= seq![left] + seq![right]);
                    Node::lemma_flat_concat(seq![left], seq![right]);
                    Node::lemma_flat_one(left);
                    Node::lemma_flat_one(right);
                    node::lemma_child_for(keys@, key);
                    assert(keys@[0] == sep);
                }
                self.root = Node::Index(IndexPage { keys, children });
                self.height = self.height + 1;
            },
        }
    }

    /// Puts a record under a key that no record has yet.
    pub fn insert(&mut self, record: Record)
        requires
            old(self).wf(),
            !old(self).has(record.key_of()),
        ensures
            final(self).wf(),
            final(self)@ == old(self)@.insert(
                leaf_page::rank(old(self)@, record.key_of()),
                record,
            ),
            old(self).levels() <= final(self).levels() <= old(self).levels() + 1,
    {
        let key = record.record_key();
        self.make_room(key);
        let ghost before = self.root;
        let ghost h = self.height as nat;
        let ghost hi = Key::MAX as int;
        proof {
            self.lemma_leaf(key);
            self.lemma_in_page(key);
            self.root.lemma_leaf_split(-1, hi, h, FAN_OUT as nat, key);
        }
        let leaf = self.root.leaf_mut(
            key,
            Ghost(-1),
            Ghost(hi),
            Ghost(h),
            Ghost(FAN_OUT as nat),
        );
        let at = match leaf.search(key) {
            Ok(at) => at,
            Err(at) => at,
        };
        leaf.record_data.insert(at, record);
        let ghost page = *leaf;
        proof {
            Self::lemma_grow(before, self.root, key, h, page, record);
        }
    }

    /// One more record on the leaf.
    #[verifier::rlimit(60)]
    #[verifier::spinoff_prover]
    proof fn lemma_grow(
        before: Node<NUM_RECORDS, Record>,
        after: Node<NUM_RECORDS, Record>,
        key: Key,
        height: nat,
        leaf: LeafPage<NUM_RECORDS, Record>,
        record: Record,
    )
        requires
            before.wf(-1, Key::MAX as int, height, FAN_OUT as nat),
            height > 1 ==> before.dense(height),
            Node::patched(
                before,
                after,
                key,
                -1,
                Key::MAX as int,
                height,
                FAN_OUT as nat,
                leaf,
            ),
            leaf.wf(),
            record.key_of() == key,
            forall|i: int|
                0 <= i < before.records().len() ==> (#[trigger] before.records()[i]).key_of()
                    != key,
            leaf@ == before.leaf_for(key, height)@.insert(
                leaf_page::rank(before.leaf_for(key, height)@, key),
                record,
            ),
        ensures
            after.wf(-1, Key::MAX as int, height, FAN_OUT as nat),
            height > 1 ==> after.dense(height),
            after.records() == before.records().insert(
                leaf_page::rank(before.records(), key),
                record,
            ),
    {
        let hi = Key::MAX as int;
        let fan = FAN_OUT as nat;
        before.lemma_records(-1, hi, height, fan);
        before.lemma_leaf_split(-1, hi, height, fan, key);
        let page = before.leaf_for(key, height)@;
        let s = before.records();
        let start = before.before(key, height).len() as int;
        leaf_page::lemma_rank(page, key);
        let at = leaf_page::rank(page, key);
        assert forall|i: int| 0 <= i < page.len() implies (#[trigger] page[i]).key_of() != key by {
            assert(s[start + i] == page[i]);
        }
        assert forall|i: int, j: int| 0 <= i < j < leaf@.len() implies leaf@[i].key_of()
            < leaf@[j].key_of() by {
            if i < at && j < at {
                assert(page[i].key_of() < page[j].key_of());
            } else if i < at && j > at {
                assert(page[i].key_of() < page[j - 1].key_of());
            } else if i > at {
                assert(page[i - 1].key_of() < page[j - 1].key_of());
            } else if i == at {
                assert(page[j - 1].key_of() > key);
            } else {
                assert(page[i].key_of() < key);
            }
        }
        assert forall|i: int| 0 <= i < leaf@.len() implies before.fence_lo(-1, key, height) < (
        #[trigger] leaf@[i]).key_of() <= before.fence_hi(hi, key, height) by {
            if i < at {
                assert(leaf@[i] == page[i]);
            } else if i > at {
                assert(leaf@[i] == page[i - 1]);
            }
        }
        assert(after.wf(-1, hi, height, fan));
        after.lemma_leaf_split(-1, hi, height, fan, key);
        let r = start + at;
        let b = before.before(key, height);
        let a = before.after(key, height);
        assert forall|i: int| 0 <= i < r implies (#[trigger] s[i]).key_of() < key by {
            if i < start {
                assert(s[i] == b[i]);
            } else {
                assert(s[i] == page[i - start]);
            }
        }
        assert forall|i: int| r <= i < s.len() implies (#[trigger] s[i]).key_of() >= key by {
            if i < start + page.len() {
                assert(s[i] == page[i - start]);
            } else {
                assert(s[i] == a[i - start - page.len()]);
            }
        }
        leaf_page::lemma_rank_is(s, key, r);
        assert(after.records() =~= s.insert(r, record));
    }
}

} // verus!
