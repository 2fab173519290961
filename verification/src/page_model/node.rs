//! Nodes of the tree: leaf pages, and index pages above them.
//!
//! The child at position `i` of an index page holds the keys above `keys[i - 1]` and up to
//! and including `keys[i]`. All leaves lie on the same level.

use vstd::prelude::*;
use crate::page_model::leaf_page;
use crate::page_model::leaf_page::{Keyed, LeafPage};
use crate::record_model::Key;
use crate::utils::count;

verus! {

/// A page of separators and the subtrees between them.
pub struct IndexPage<const NUM_RECORDS: usize, Record> {
    pub keys: Vec<Key>,
    pub children: Vec<Node<NUM_RECORDS, Record>>,
}

/// A subtree.
pub enum Node<const NUM_RECORDS: usize, Record> {
    Index(IndexPage<NUM_RECORDS, Record>),
    Leaf(LeafPage<NUM_RECORDS, Record>),
}

/// Separators ascend strictly.
pub open spec fn ascending(keys: Seq<Key>) -> bool {
    forall|i: int, j: int| 0 <= i < j < keys.len() ==> keys[i] < keys[j]
}

/// The child that a key belongs to: the first whose separator is not below the key.
pub open spec fn child_for(keys: Seq<Key>, key: Key) -> int
    decreases keys.len(),
{
    if keys.len() == 0 {
        0
    } else if keys.last() < key {
        keys.len() as int
    } else {
        child_for(keys.drop_last(), key)
    }
}

/// The upper bound of the child before position `i`, which is the lower bound of the child at
/// `i`.
pub open spec fn bound(keys: Seq<Key>, lo: int, hi: int, i: int) -> int {
    if i <= 0 {
        lo
    } else if i <= keys.len() {
        keys[i - 1] as int
    } else {
        hi
    }
}

/// The separator next to a child: the one behind it, or the last one for the last child.
pub open spec fn side(keys: Seq<Key>, i: int) -> Key {
    if i < keys.len() {
        keys[i]
    } else {
        keys.last()
    }
}

/// The key lies above the end at the position before, or above `lo` at the first position, and
/// not above the end at the position.
pub open spec fn between(ends: Seq<Key>, lo: int, i: int, key: Key) -> bool {
    (if i == 0 {
        lo
    } else {
        ends[i - 1] as int
    }) < key <= ends[i]
}

/// There are as many ends as fences, and each end is the fence at its position or an earlier one.
pub open spec fn at_most_behind(ends: Seq<Key>, fences: Seq<Key>) -> bool {
    &&& ends.len() == fences.len()
    &&& forall|i: int|
        0 <= i < ends.len() ==> #[trigger] ends[i] == fences[i] || exists|j: int|
            0 <= j < i && #[trigger] fences[j] == ends[i]
}

/// The same of two rows, one behind the other.
proof fn lemma_at_most_behind(a: Seq<Key>, fa: Seq<Key>, b: Seq<Key>, fb: Seq<Key>)
    requires
        at_most_behind(a, fa),
        at_most_behind(b, fb),
    ensures
        at_most_behind(a + b, fa + fb),
{
    let e = a + b;
    let f = fa + fb;
    assert forall|i: int| 0 <= i < e.len() implies #[trigger] e[i] == f[i] || exists|j: int|
        0 <= j < i && #[trigger] f[j] == e[i] by {
        if i < a.len() {
            assert(e[i] == a[i] && f[i] == fa[i]);
            if a[i] != fa[i] {
                let j = choose|j: int| 0 <= j < i && #[trigger] fa[j] == a[i];
                assert(f[j] == e[i]);
            }
        } else {
            let k = i - a.len();
            assert(e[i] == b[k] && f[i] == fb[k]);
            if b[k] != fb[k] {
                let j = choose|j: int| 0 <= j < k && #[trigger] fb[j] == b[k];
                assert(f[a.len() + j] == e[i]);
            }
        }
    }
}

/// Separators before the child are below the key, the others are not.
pub proof fn lemma_child_for(keys: Seq<Key>, key: Key)
    requires
        ascending(keys),
    ensures
        0 <= child_for(keys, key) <= keys.len(),
        forall|i: int| 0 <= i < child_for(keys, key) ==> #[trigger] keys[i] < key,
        forall|i: int| child_for(keys, key) <= i < keys.len() ==> #[trigger] keys[i] >= key,
    decreases keys.len(),
{
    if keys.len() > 0 && keys.last() >= key {
        lemma_child_for(keys.drop_last(), key);
        assert forall|i: int| child_for(keys, key) <= i < keys.len() implies #[trigger] keys[i]
            >= key by {
            if i < keys.len() - 1 {
                assert(keys.drop_last()[i] == keys[i]);
            }
        }
        assert forall|i: int| 0 <= i < child_for(keys, key) implies #[trigger] keys[i] < key by {
            assert(keys.drop_last()[i] == keys[i]);
        }
    }
}

/// Only one position separates the separators below the key from the others.
pub proof fn lemma_child_for_is(keys: Seq<Key>, key: Key, at: int)
    requires
        ascending(keys),
        0 <= at <= keys.len(),
        forall|i: int| 0 <= i < at ==> #[trigger] keys[i] < key,
        forall|i: int| at <= i < keys.len() ==> #[trigger] keys[i] >= key,
    ensures
        child_for(keys, key) == at,
{
    lemma_child_for(keys, key);
    let c = child_for(keys, key);
    if c < at {
        assert(keys[c] < key);
    } else if at < c {
        assert(keys[at] >= key);
    }
}

impl<const NUM_RECORDS: usize, Record: Keyed> Node<NUM_RECORDS, Record> {
    /// All records of the subtree, in the order of the leaves.
    pub open spec fn records(&self) -> Seq<Record>
        decreases self, 0nat,
    {
        match self {
            Node::Leaf(page) => page@,
            Node::Index(page) => Self::flat(page.children@),
        }
    }

    /// All records of some subtrees, one after the other.
    pub open spec fn flat(children: Seq<Node<NUM_RECORDS, Record>>) -> Seq<Record>
        decreases children, children.len(),
    {
        if children.len() == 0 {
            Seq::empty()
        } else {
            children[0].records() + Self::flat(children.drop_first())
        }
    }

    /// The subtree has `height` levels, at most `fan` children per index page, and keys above
    /// `lo` and up to `hi`, each where the separators say.
    pub open spec fn wf(&self, lo: int, hi: int, height: nat, fan: nat) -> bool
        decreases height, 0nat,
    {
        match self {
            Node::Leaf(page) => {
                &&& height == 1
                &&& page.wf()
                &&& leaf_page::sorted(page@)
                &&& leaf_page::within(page@, lo, hi)
            },
            Node::Index(page) => {
                &&& height > 1
                &&& 2 <= page.children@.len() <= fan
                &&& Self::linked(page.keys@, page.children@, lo, hi, (height - 1) as nat, fan)
            },
        }
    }

    /// The separators ascend between `lo` and `hi`, and each child, of `height` levels, keeps to
    /// the separators around it.
    pub open spec fn linked(
        keys: Seq<Key>,
        children: Seq<Node<NUM_RECORDS, Record>>,
        lo: int,
        hi: int,
        height: nat,
        fan: nat,
    ) -> bool
        decreases height, 1nat,
    {
        &&& children.len() == keys.len() + 1
        &&& ascending(keys)
        &&& forall|i: int| 0 <= i < keys.len() ==> lo < #[trigger] keys[i] < hi
        &&& forall|i: int| #![trigger children[i]]
            0 <= i < children.len() ==> children[i].wf(
                bound(keys, lo, hi, i),
                bound(keys, lo, hi, i + 1),
                height,
                fan,
            )
    }

    /// No leaf is empty.
    pub open spec fn dense(&self, height: nat) -> bool
        decreases height,
    {
        match self {
            Node::Leaf(page) => page@.len() > 0,
            Node::Index(page) => height > 0 && forall|i: int| #![trigger page.children@[i]]
                0 <= i < page.children@.len() ==> page.children@[i].dense((height - 1) as nat),
        }
    }

    /// The leaf that a key belongs to.
    pub open spec fn leaf_for(&self, key: Key, height: nat) -> LeafPage<NUM_RECORDS, Record>
        decreases height,
    {
        match self {
            Node::Leaf(page) => *page,
            Node::Index(page) => if height > 0 {
                page.children@[child_for(page.keys@, key)].leaf_for(key, (height - 1) as nat)
            } else {
                arbitrary()
            },
        }
    }

    /// The records of the leaves before the leaf that a key belongs to.
    pub open spec fn before(&self, key: Key, height: nat) -> Seq<Record>
        decreases height,
    {
        match self {
            Node::Leaf(page) => Seq::empty(),
            Node::Index(page) => if height > 0 {
                let c = child_for(page.keys@, key);
                Self::flat(page.children@.take(c)) + page.children@[c].before(
                    key,
                    (height - 1) as nat,
                )
            } else {
                arbitrary()
            },
        }
    }

    /// The records of the leaves behind the leaf that a key belongs to.
    pub open spec fn after(&self, key: Key, height: nat) -> Seq<Record>
        decreases height,
    {
        match self {
            Node::Leaf(page) => Seq::empty(),
            Node::Index(page) => if height > 0 {
                let c = child_for(page.keys@, key);
                page.children@[c].after(key, (height - 1) as nat) + Self::flat(
                    page.children@.skip(c + 1),
                )
            } else {
                arbitrary()
            },
        }
    }

    /// The lower bound, exclusive, of the leaf that a key belongs to.
    pub open spec fn fence_lo(&self, lo: int, key: Key, height: nat) -> int
        decreases height,
    {
        match self {
            Node::Leaf(page) => lo,
            Node::Index(page) => if height > 0 {
                let c = child_for(page.keys@, key);
                page.children@[c].fence_lo(
                    bound(page.keys@, lo, lo, c),
                    key,
                    (height - 1) as nat,
                )
            } else {
                arbitrary()
            },
        }
    }

    /// The upper bound, inclusive, of the leaf that a key belongs to.
    pub open spec fn fence_hi(&self, hi: int, key: Key, height: nat) -> int
        decreases height,
    {
        match self {
            Node::Leaf(page) => hi,
            Node::Index(page) => if height > 0 {
                let c = child_for(page.keys@, key);
                page.children@[c].fence_hi(
                    bound(page.keys@, hi, hi, c + 1),
                    key,
                    (height - 1) as nat,
                )
            } else {
                arbitrary()
            },
        }
    }

    /// Subtrees in two groups hold the records of the one and then those of the other.
    pub proof fn lemma_flat_concat(
        a: Seq<Node<NUM_RECORDS, Record>>,
        b: Seq<Node<NUM_RECORDS, Record>>,
    )
        ensures
            Self::flat(a + b) == Self::flat(a) + Self::flat(b),
        decreases a.len(),
    {
        if a.len() == 0 {
            assert(a + b =~= b);
        } else {
            Self::lemma_flat_concat(a.drop_first(), b);
            assert((a + b).drop_first() =~= a.drop_first() + b);
            assert(Self::flat(a + b) =~= Self::flat(a) + Self::flat(b));
        }
    }

    /// One subtree holds its own records.
    pub proof fn lemma_flat_one(a: Node<NUM_RECORDS, Record>)
        ensures
            Self::flat(seq![a]) == a.records(),
    {
        reveal_with_fuel(Node::flat, 2);
        assert(seq![a].drop_first() =~= Seq::<Node<NUM_RECORDS, Record>>::empty());
        assert(Self::flat(seq![a]) =~= a.records());
    }

    /// The records before, of and behind one of several subtrees.
    pub proof fn lemma_flat_split(s: Seq<Node<NUM_RECORDS, Record>>, i: int)
        requires
            0 <= i < s.len(),
        ensures
            Self::flat(s) == Self::flat(s.take(i)) + s[i].records() + Self::flat(s.skip(i + 1)),
    {
        assert(s =~= s.take(i) + (seq![s[i]] + s.skip(i + 1)));
        Self::lemma_flat_concat(s.take(i), seq![s[i]] + s.skip(i + 1));
        Self::lemma_flat_concat(seq![s[i]], s.skip(i + 1));
        Self::lemma_flat_one(s[i]);
        assert(Self::flat(s) =~= Self::flat(s.take(i)) + s[i].records() + Self::flat(
            s.skip(i + 1),
        ));
    }

    /// The records of a subtree ascend and respect its bounds.
    pub proof fn lemma_records(&self, lo: int, hi: int, height: nat, fan: nat)
        requires
            self.wf(lo, hi, height, fan),
        ensures
            leaf_page::sorted(self.records()),
            leaf_page::within(self.records(), lo, hi),
        decreases height, 1nat, 0int,
    {
        match self {
            Node::Leaf(page) => {},
            Node::Index(page) => {
                let n = page.children@.len() as int;
                self.lemma_children(lo, hi, height, fan, 0, n);
                assert(page.children@.subrange(0, n) =~= page.children@);
            },
        }
    }

    /// The records of consecutive children ascend and respect the bounds of the group.
    pub proof fn lemma_children(&self, lo: int, hi: int, height: nat, fan: nat, a: int, b: int)
        requires
            self.wf(lo, hi, height, fan),
            *self is Index,
            0 <= a <= b <= self->Index_0.children@.len(),
        ensures
            leaf_page::sorted(Self::flat(self->Index_0.children@.subrange(a, b))),
            leaf_page::within(
                Self::flat(self->Index_0.children@.subrange(a, b)),
                bound(self->Index_0.keys@, lo, hi, a),
                bound(self->Index_0.keys@, lo, hi, b),
            ),
        decreases height, 0nat, b - a,
    {
        let page = self->Index_0;
        let s = page.children@.subrange(a, b);
        if a < b {
            self.lemma_children(lo, hi, height, fan, a, b - 1);
            let c = page.children@[b - 1];
            let l = bound(page.keys@, lo, hi, b - 1);
            let h = bound(page.keys@, lo, hi, b);
            assert(c.wf(l, h, (height - 1) as nat, fan));
            c.lemma_records(l, h, (height - 1) as nat, fan);
            assert(s =~= page.children@.subrange(a, b - 1) + seq![c]);
            Self::lemma_flat_concat(page.children@.subrange(a, b - 1), seq![c]);
            Self::lemma_flat_one(c);
            let x = Self::flat(page.children@.subrange(a, b - 1));
            let y = c.records();
            assert(Self::flat(s) == x + y);
            assert(bound(page.keys@, lo, hi, a) <= l);
            assert(l < h);
            assert forall|i: int, j: int| 0 <= i < j < (x + y).len() implies (x
                + y)[i].key_of() < (x + y)[j].key_of() by {
                if j < x.len() {
                    assert((x + y)[i] == x[i] && (x + y)[j] == x[j]);
                } else if i >= x.len() {
                    assert((x + y)[i] == y[i - x.len()] && (x + y)[j] == y[j - x.len()]);
                } else {
                    assert((x + y)[i] == x[i] && (x + y)[j] == y[j - x.len()]);
                    assert(x[i].key_of() <= l);
                    assert(y[j - x.len()].key_of() > l);
                }
            }
            assert forall|i: int| 0 <= i < (x + y).len() implies bound(page.keys@, lo, hi, a) < (
            #[trigger] (x + y)[i]).key_of() <= h by {
                if i < x.len() {
                    assert((x + y)[i] == x[i]);
                } else {
                    assert((x + y)[i] == y[i - x.len()]);
                }
            }
        } else {
            assert(s =~= Seq::<Node<NUM_RECORDS, Record>>::empty());
        }
    }

    /// A subtree is its leaf for a key, with what is before and behind it; the fences of the
    /// leaf part the three.
    pub proof fn lemma_leaf_split(&self, lo: int, hi: int, height: nat, fan: nat, key: Key)
        requires
            self.wf(lo, hi, height, fan),
        ensures
            self.records() == self.before(key, height) + self.leaf_for(key, height)@ + self.after(
                key,
                height,
            ),
            lo <= self.fence_lo(lo, key, height),
            self.fence_hi(hi, key, height) <= hi,
            lo < key ==> self.fence_lo(lo, key, height) < key,
            key <= hi ==> key <= self.fence_hi(hi, key, height),
            self.leaf_for(key, height).wf(),
            leaf_page::sorted(self.leaf_for(key, height)@),
            leaf_page::within(
                self.leaf_for(key, height)@,
                self.fence_lo(lo, key, height),
                self.fence_hi(hi, key, height),
            ),
            leaf_page::within(
                self.before(key, height),
                lo,
                self.fence_lo(lo, key, height),
            ),
            leaf_page::within(self.after(key, height), self.fence_hi(hi, key, height), hi),
            self.dense(height) ==> self.leaf_for(key, height)@.len() > 0,
        decreases height,
    {
        match self {
            Node::Leaf(page) => {
                assert(self.records() =~= self.before(key, height) + self.leaf_for(key, height)@
                    + self.after(key, height));
            },
            Node::Index(page) => {
                let keys = page.keys@;
                let children = page.children@;
                lemma_child_for(keys, key);
                let c = child_for(keys, key);
                let child = children[c];
                let l = bound(keys, lo, hi, c);
                let h = bound(keys, lo, hi, c + 1);
                let below = (height - 1) as nat;
                assert(l == bound(keys, lo, lo, c));
                assert(h == bound(keys, hi, hi, c + 1));
                assert(child.wf(l, h, below, fan));
                child.lemma_leaf_split(l, h, below, fan, key);
                Self::lemma_flat_split(children, c);
                let x = Self::flat(children.take(c));
                let y = Self::flat(children.skip(c + 1));
                assert(self.records() =~= self.before(key, height) + self.leaf_for(key, height)@
                    + self.after(key, height));
                self.lemma_children(lo, hi, height, fan, 0, c);
                assert(children.subrange(0, c) =~= children.take(c));
                let n = children.len() as int;
                self.lemma_children(lo, hi, height, fan, c + 1, n);
                assert(children.subrange(c + 1, n) =~= children.skip(c + 1));
                let b = self.before(key, height);
                let a = self.after(key, height);
                let f = self.fence_lo(lo, key, height);
                let g = self.fence_hi(hi, key, height);
                assert forall|i: int| 0 <= i < b.len() implies lo < (#[trigger] b[i]).key_of()
                    <= f by {
                    if i < x.len() {
                        assert(b[i] == x[i]);
                    } else {
                        assert(b[i] == child.before(key, below)[i - x.len()]);
                    }
                }
                assert forall|i: int| 0 <= i < a.len() implies g < (#[trigger] a[i]).key_of()
                    <= hi by {
                    let m = child.after(key, below).len();
                    if i < m {
                        assert(a[i] == child.after(key, below)[i]);
                    } else {
                        assert(a[i] == y[i - m]);
                    }
                }
            },
        }
    }

    /// A child that was cut in two leaves the page linked, with one more separator.
    proof fn lemma_insert_child(
        keys: Seq<Key>,
        children: Seq<Node<NUM_RECORDS, Record>>,
        lo: int,
        hi: int,
        height: nat,
        fan: nat,
        i: int,
        sep: Key,
        left: Node<NUM_RECORDS, Record>,
        right: Node<NUM_RECORDS, Record>,
    )
        requires
            Self::linked(keys, children, lo, hi, height, fan),
            0 <= i < children.len(),
            bound(keys, lo, hi, i) < sep < bound(keys, lo, hi, i + 1),
            left.wf(bound(keys, lo, hi, i), sep as int, height, fan),
            right.wf(sep as int, bound(keys, lo, hi, i + 1), height, fan),
            left.records() + right.records() == children[i].records(),
        ensures
            Self::linked(
                keys.insert(i, sep),
                children.update(i, left).insert(i + 1, right),
                lo,
                hi,
                height,
                fan,
            ),
            Self::flat(children.update(i, left).insert(i + 1, right)) == Self::flat(children),
    {
        let ks = keys.insert(i, sep);
        let cs = children.update(i, left).insert(i + 1, right);
        assert forall|a: int, b: int| 0 <= a < b < ks.len() implies ks[a] < ks[b] by {
            if i > 0 {
                assert(keys[i - 1] < sep);
            }
            if i < keys.len() {
                assert(sep < keys[i]);
            }
        }
        assert forall|a: int| 0 <= a < ks.len() implies lo < #[trigger] ks[a] < hi by {
            if a < i {
                assert(ks[a] == keys[a]);
            } else if a > i {
                assert(ks[a] == keys[a - 1]);
            } else {
                if i > 0 {
                    assert(lo < keys[i - 1]);
                }
                if i < keys.len() {
                    assert(keys[i] < hi);
                }
            }
        }
        assert forall|a: int| #![trigger cs[a]] 0 <= a < cs.len() implies cs[a].wf(
            bound(ks, lo, hi, a),
            bound(ks, lo, hi, a + 1),
            height,
            fan,
        ) by {
            if a < i {
                assert(cs[a] == children[a]);
                assert(bound(ks, lo, hi, a) == bound(keys, lo, hi, a));
                assert(bound(ks, lo, hi, a + 1) == bound(keys, lo, hi, a + 1));
            } else if a > i + 1 {
                assert(cs[a] == children[a - 1]);
                assert(bound(ks, lo, hi, a) == bound(keys, lo, hi, a - 1));
                assert(bound(ks, lo, hi, a + 1) == bound(keys, lo, hi, a));
            } else if a == i {
                assert(bound(ks, lo, hi, a) == bound(keys, lo, hi, i));
            } else {
                assert(bound(ks, lo, hi, a + 1) == bound(keys, lo, hi, i + 1));
            }
        }
        Self::lemma_flat_split(children, i);
        assert(cs =~= children.take(i) + (seq![left] + (seq![right] + children.skip(i + 1))));
        Self::lemma_flat_concat(
            children.take(i),
            seq![left] + (seq![right] + children.skip(i + 1)),
        );
        Self::lemma_flat_concat(seq![left], seq![right] + children.skip(i + 1));
        Self::lemma_flat_concat(seq![right], children.skip(i + 1));
        Self::lemma_flat_one(left);
        Self::lemma_flat_one(right);
        assert(Self::flat(cs) =~= Self::flat(children));
    }

    /// A linked page can be cut before any child but the first; the separator there parts the
    /// halves.
    proof fn lemma_cut(
        keys: Seq<Key>,
        children: Seq<Node<NUM_RECORDS, Record>>,
        lo: int,
        hi: int,
        height: nat,
        fan: nat,
        mid: int,
    )
        requires
            Self::linked(keys, children, lo, hi, height, fan),
            1 <= mid < children.len(),
        ensures
            Self::linked(
                keys.take(mid - 1),
                children.take(mid),
                lo,
                keys[mid - 1] as int,
                height,
                fan,
            ),
            Self::linked(
                keys.skip(mid),
                children.skip(mid),
                keys[mid - 1] as int,
                hi,
                height,
                fan,
            ),
            Self::flat(children.take(mid)) + Self::flat(children.skip(mid)) == Self::flat(
                children,
            ),
    {
        let sep = keys[mid - 1] as int;
        let lk = keys.take(mid - 1);
        let lc = children.take(mid);
        let rk = keys.skip(mid);
        let rc = children.skip(mid);
        assert forall|a: int| #![trigger lc[a]] 0 <= a < lc.len() implies lc[a].wf(
            bound(lk, lo, sep, a),
            bound(lk, lo, sep, a + 1),
            height,
            fan,
        ) by {
            assert(lc[a] == children[a]);
            assert(bound(lk, lo, sep, a) == bound(keys, lo, hi, a));
            assert(bound(lk, lo, sep, a + 1) == bound(keys, lo, hi, a + 1));
        }
        assert forall|a: int| #![trigger rc[a]] 0 <= a < rc.len() implies rc[a].wf(
            bound(rk, sep, hi, a),
            bound(rk, sep, hi, a + 1),
            height,
            fan,
        ) by {
            assert(rc[a] == children[a + mid]);
            assert(bound(rk, sep, hi, a) == bound(keys, lo, hi, a + mid));
            assert(bound(rk, sep, hi, a + 1) == bound(keys, lo, hi, a + mid + 1));
        }
        assert(children =~= lc + rc);
        Self::lemma_flat_concat(lc, rc);
    }

    /// How many pages the subtree is made of.
    pub open spec fn pages(&self) -> nat
        decreases self, 0nat,
    {
        match self {
            Node::Leaf(page) => 1,
            Node::Index(page) => 1 + Self::pages_of(page.children@),
        }
    }

    /// How many pages some subtrees are made of.
    pub open spec fn pages_of(children: Seq<Node<NUM_RECORDS, Record>>) -> nat
        decreases children, children.len(),
    {
        if children.len() == 0 {
            0
        } else {
            Self::pages_of(children.drop_last()) + children.last().pages()
        }
    }

    /// A leaf is one page. An index page is one page more than its children, which are counted one
    /// by one.
    pub proof fn law_pages(
        &self,
        a: Seq<Node<NUM_RECORDS, Record>>,
        b: Seq<Node<NUM_RECORDS, Record>>,
    )
        ensures
            self is Leaf ==> self.pages() == 1,
            self matches Node::Index(page) ==> self.pages() == Self::pages_of(page.children@) + 1,
            Self::pages_of(a + b) == Self::pages_of(a) + Self::pages_of(b),
            a.len() == 1 ==> Self::pages_of(a) == a[0].pages(),
            a.len() == 0 ==> Self::pages_of(a) == 0,
        decreases b.len(),
    {
        if a.len() == 1 {
            assert(a.drop_last() =~= Seq::<Node<NUM_RECORDS, Record>>::empty());
            assert(Self::pages_of(a.drop_last()) == 0);
        }
        if b.len() == 0 {
            assert(a + b =~= a);
        } else {
            assert((a + b).drop_last() =~= a + b.drop_last());
            assert((a + b).last() == b.last());
            self.law_pages(a, b.drop_last());
        }
    }

    /// Counts the levels along the first children.
    pub fn depth(
        &self,
        Ghost(lo): Ghost<int>,
        Ghost(hi): Ghost<int>,
        Ghost(height): Ghost<nat>,
        Ghost(fan): Ghost<nat>,
    ) -> (h: usize)
        requires
            self.wf(lo, hi, height, fan),
            height <= usize::MAX,
        ensures
            h == height,
        decreases height,
    {
        match self {
            Node::Leaf(_) => 1,
            Node::Index(page) => {
                assert(page.children@[0].wf(
                    bound(page.keys@, lo, hi, 0),
                    bound(page.keys@, lo, hi, 1),
                    (height - 1) as nat,
                    fan,
                ));
                1 + page.children[0].depth(
                    Ghost(bound(page.keys@, lo, hi, 0)),
                    Ghost(bound(page.keys@, lo, hi, 1)),
                    Ghost((height - 1) as nat),
                    Ghost(fan),
                )
            },
        }
    }

    /// Counts the pages.
    pub fn count_pages(
        &self,
        Ghost(lo): Ghost<int>,
        Ghost(hi): Ghost<int>,
        Ghost(height): Ghost<nat>,
        Ghost(fan): Ghost<nat>,
    ) -> (n: usize)
        requires
            self.wf(lo, hi, height, fan),
        ensures
            n == count::saturated(self.pages()),
        decreases height,
    {
        match self {
            Node::Leaf(_) => 1,
            Node::Index(page) => {
                let mut n: usize = 1;
                let mut i: usize = 0;
                let ghost children = page.children@;
                assert(children.take(0) =~= Seq::<Node<NUM_RECORDS, Record>>::empty());
                while i < page.children.len()
                    invariant
                        children == page.children@,
                        i <= children.len(),
                        height > 1,
                        Self::linked(page.keys@, children, lo, hi, (height - 1) as nat, fan),
                        n == count::saturated(1 + Self::pages_of(children.take(i as int))),
                    decreases children.len() - i,
                {
                    proof {
                        let t = children.take(i + 1);
                        assert(t.drop_last() =~= children.take(i as int));
                        assert(t.last() == children[i as int]);
                    }
                    let more = page.children[i].count_pages(
                        Ghost(bound(page.keys@, lo, hi, i as int)),
                        Ghost(bound(page.keys@, lo, hi, i + 1)),
                        Ghost((height - 1) as nat),
                        Ghost(fan),
                    );
                    n = n.saturating_add(more);
                    i = i + 1;
                }
                assert(children.take(i as int) =~= children);
                n
            },
        }
    }

    /// The right ends of the leaves below an index page as they are read from the separators: the
    /// separators of the page above the leaves, and for its last leaf what the page above that
    /// says, or `fence` if there is none.
    pub open spec fn right_ends(&self, fence: Key, height: nat) -> Seq<Key>
        decreases height, 0nat,
    {
        match self {
            Node::Leaf(_) => Seq::empty(),
            Node::Index(page) => if height <= 2 {
                page.keys@.push(fence)
            } else {
                Self::right_ends_of(page.keys@, page.children@, (height - 1) as nat)
            },
        }
    }

    /// The right ends of the leaves of some children, each with the separator next to it. The
    /// last separator stands for the child behind it too.
    pub open spec fn right_ends_of(
        keys: Seq<Key>,
        children: Seq<Node<NUM_RECORDS, Record>>,
        height: nat,
    ) -> Seq<Key>
        decreases height, children.len(),
    {
        if children.len() == 0 {
            Seq::empty()
        } else {
            let i = children.len() - 1;
            Self::right_ends_of(keys, children.drop_last(), height) + children.last().right_ends(
                side(keys, i),
                height,
            )
        }
    }

    /// The largest key that belongs to each leaf, from left to right.
    pub open spec fn fences(&self, hi: Key, height: nat) -> Seq<Key>
        decreases height, 0nat,
    {
        match self {
            Node::Leaf(_) => seq![hi],
            Node::Index(page) => if height <= 2 {
                page.keys@.push(hi)
            } else {
                Self::fences_of(page.keys@, page.children@, hi, (height - 1) as nat)
            },
        }
    }

    /// The largest key that belongs to each leaf of some children.
    pub open spec fn fences_of(
        keys: Seq<Key>,
        children: Seq<Node<NUM_RECORDS, Record>>,
        hi: Key,
        height: nat,
    ) -> Seq<Key>
        decreases height, children.len(),
    {
        if children.len() == 0 {
            Seq::empty()
        } else {
            let i = children.len() - 1;
            Self::fences_of(keys, children.drop_last(), hi, height) + children.last().fences(
                bound(keys, 0, hi as int, i + 1) as Key,
                height,
            )
        }
    }

    /// Fences ascend up to the upper bound, and each is the fence of all keys down to the one
    /// before it.
    pub proof fn lemma_fences(&self, lo: int, hi: Key, height: nat, fan: nat, key: Key)
        requires
            self.wf(lo, hi as int, height, fan),
            height > 1,
            -1 <= lo,
        ensures
            self.fences(hi, height).len() > 0,
            self.fences(hi, height).last() == hi,
            ascending(self.fences(hi, height)),
            forall|i: int|
                0 <= i < self.fences(hi, height).len() ==> lo < #[trigger] self.fences(
                    hi,
                    height,
                )[i] <= hi,
            forall|i: int|
                0 <= i < self.fences(hi, height).len() && between(
                    self.fences(hi, height),
                    lo,
                    i,
                    key,
                ) ==> self.fence_hi(hi as int, key, height) == #[trigger] self.fences(
                    hi,
                    height,
                )[i],
        decreases height, 0nat,
    {
        if let Node::Index(page) = self {
            let keys = page.keys@;
            let children = page.children@;
            let f = self.fences(hi, height);
            if height == 2 {
                assert forall|i: int| 0 <= i < f.len() && between(f, lo, i, key) implies self.fence_hi(
                    hi as int,
                    key,
                    height,
                ) == #[trigger] f[i] by {
                    assert forall|j: int| 0 <= j < i implies #[trigger] keys[j] < key by {
                        assert(f[j] == keys[j]);
                        assert(f[i - 1] == keys[i - 1]);
                    }
                    assert forall|j: int| i <= j < keys.len() implies #[trigger] keys[j] >= key by {
                        assert(f[i] == keys[i]);
                    }
                    lemma_child_for_is(keys, key, i);
                    let child = children[i];
                    assert(child.wf(
                        bound(keys, lo, hi as int, i),
                        bound(keys, lo, hi as int, i + 1),
                        1,
                        fan,
                    ));
                    assert(child is Leaf);
                    let b = bound(keys, hi as int, hi as int, i + 1);
                    assert(child.fence_hi(b, key, 1) == b);
                }
            } else {
                let n = children.len() as int;
                assert(children.take(n) =~= children);
                Self::lemma_fences_of(
                    keys,
                    children,
                    lo,
                    hi,
                    (height - 1) as nat,
                    fan,
                    key,
                    n,
                );
            }
        }
    }

    /// The same for the first children.
    proof fn lemma_fences_of(
        keys: Seq<Key>,
        children: Seq<Node<NUM_RECORDS, Record>>,
        lo: int,
        hi: Key,
        height: nat,
        fan: nat,
        key: Key,
        n: int,
    )
        requires
            Self::linked(keys, children, lo, hi as int, height, fan),
            height > 1,
            -1 <= lo,
            1 <= n <= children.len(),
        ensures
            ({
                let f = Self::fences_of(keys, children.take(n), hi, height);
                let top = bound(keys, lo, hi as int, n);
                let c = child_for(keys, key);
                &&& f.len() > 0
                &&& f.last() == top
                &&& ascending(f)
                &&& forall|i: int| 0 <= i < f.len() ==> lo < #[trigger] f[i] <= top
                &&& forall|i: int|
                    0 <= i < f.len() && between(f, lo, i, key) ==> children[c].fence_hi(
                        bound(keys, hi as int, hi as int, c + 1),
                        key,
                        height,
                    ) == #[trigger] f[i]
            }),
        decreases height, n,
    {
        let first = children.take(n);
        let f = Self::fences_of(keys, first, hi, height);
        assert(first.drop_last() =~= children.take(n - 1));
        let child = children[n - 1];
        let b = bound(keys, lo, hi as int, n - 1);
        let t = bound(keys, lo, hi as int, n);
        assert(child.wf(b, t, height, fan));
        let own = child.fences(t as Key, height);
        let rest = Self::fences_of(keys, children.take(n - 1), hi, height);
        assert(f == rest + own);
        if n == 1 {
            assert(rest =~= Seq::<Key>::empty());
        } else {
            Self::lemma_fences_of(keys, children, lo, hi, height, fan, key, n - 1);
        }
        child.lemma_fences(b, t as Key, height, fan, key);
        assert forall|i: int, j: int| 0 <= i < j < f.len() implies f[i] < f[j] by {
            if j < rest.len() {
                assert(rest[i] < rest[j]);
            } else if i >= rest.len() {
                assert(own[i - rest.len()] < own[j - rest.len()]);
            } else {
                assert(rest[i] <= b);
                assert(b < own[j - rest.len()]);
            }
        }
        assert forall|i: int| 0 <= i < f.len() implies lo < #[trigger] f[i] <= t by {
            if i < rest.len() {
                assert(f[i] == rest[i]);
            } else {
                assert(f[i] == own[i - rest.len()]);
            }
        }
        let c = child_for(keys, key);
        assert forall|i: int| 0 <= i < f.len() && between(f, lo, i, key) implies children[c].fence_hi(
            bound(keys, hi as int, hi as int, c + 1),
            key,
            height,
        ) == #[trigger] f[i] by {
            if i < rest.len() {
                assert(f[i] == rest[i]);
                if i > 0 {
                    assert(f[i - 1] == rest[i - 1]);
                }
                assert(between(rest, lo, i, key));
            } else {
                let k = i - rest.len();
                assert(f[i] == own[k]);
                if k > 0 {
                    assert(f[i - 1] == own[k - 1]);
                } else if i > 0 {
                    assert(f[i - 1] == rest.last());
                }
                assert(between(own, b, k, key));
                if k > 0 {
                    assert(b < own[k - 1]);
                }
                assert(b < key <= t);
                lemma_child_for_is(keys, key, n - 1);
            }
        }
    }

    /// Where there are at most three levels, only the last right end is not the fence.
    pub proof fn lemma_right_ends(&self, lo: int, hi: Key, height: nat, fan: nat, fence: Key)
        requires
            self.wf(lo, hi as int, height, fan),
            1 < height <= 3,
        ensures
            self.right_ends(fence, height).len() == self.fences(hi, height).len(),
            self.right_ends(fence, height).drop_last() == self.fences(hi, height).drop_last(),
    {
        if let Node::Index(page) = self {
            let keys = page.keys@;
            let children = page.children@;
            if height == 2 {
                assert(keys.push(fence).drop_last() =~= keys.push(hi).drop_last());
            } else {
                let n = keys.len() as int;
                assert(children.drop_last() =~= children.take(n));
                Self::lemma_right_ends_of(keys, children, lo, hi, fan, n);
                let a = Self::right_ends_of(keys, children.take(n), 2);
                let last = children[n];
                assert(last.wf(bound(keys, lo, hi as int, n), hi as int, 2, fan));
                let r = last.right_ends(side(keys, n), 2);
                let f = last.fences(hi, 2);
                assert(self.right_ends(fence, height) == a + r);
                assert(self.fences(hi, height) == a + f);
                assert((a + r).drop_last() =~= (a + f).drop_last());
            }
        }
    }

    /// On three or more levels there are as many right ends as leaves, and each of them is the
    /// fence of its leaf or of an earlier one.
    pub proof fn law_right_ends(&self, lo: int, hi: Key, height: nat, fan: nat, fence: Key)
        requires
            self.wf(lo, hi as int, height, fan),
            height >= 3,
            -1 <= lo,
        ensures
            at_most_behind(self.right_ends(fence, height), self.fences(hi, height)),
        decreases height, 0nat,
    {
        if let Node::Index(page) = self {
            let keys = page.keys@;
            let children = page.children@;
            let n = keys.len() as int;
            let ends = self.right_ends(fence, height);
            let fences = self.fences(hi, height);
            if height == 3 {
                self.lemma_right_ends(lo, hi, height, fan, fence);
                Self::lemma_fences_of(keys, children, lo, hi, 2, fan, 0, n);
                assert(children.drop_last() =~= children.take(n));
                let a = Self::fences_of(keys, children.take(n), hi, 2);
                let last = children[n];
                assert(last.wf(bound(keys, lo, hi as int, n), hi as int, 2, fan));
                assert(fences == a + last.fences(hi, 2));
                let own = last.right_ends(side(keys, n), 2);
                assert(ends == Self::right_ends_of(keys, children.take(n), 2) + own);
                assert(own.last() == side(keys, n));
                assert(ends.last() == side(keys, n));
                assert(a.last() == keys[n - 1]);
                assert(fences[a.len() - 1] == ends.last());
                assert forall|i: int| 0 <= i < ends.len() implies #[trigger] ends[i] == fences[i]
                    || exists|j: int| 0 <= j < i && #[trigger] fences[j] == ends[i] by {
                    if i < ends.len() - 1 {
                        assert(ends.drop_last()[i] == fences.drop_last()[i]);
                    }
                }
            } else {
                assert(children.take(n + 1) =~= children);
                Self::lemma_right_ends_behind(
                    keys,
                    children,
                    lo,
                    hi,
                    (height - 1) as nat,
                    fan,
                    n + 1,
                );
            }
        }
    }

    /// The same for the first children.
    proof fn lemma_right_ends_behind(
        keys: Seq<Key>,
        children: Seq<Node<NUM_RECORDS, Record>>,
        lo: int,
        hi: Key,
        height: nat,
        fan: nat,
        n: int,
    )
        requires
            Self::linked(keys, children, lo, hi as int, height, fan),
            height >= 3,
            -1 <= lo,
            0 <= n <= children.len(),
        ensures
            at_most_behind(
                Self::right_ends_of(keys, children.take(n), height),
                Self::fences_of(keys, children.take(n), hi, height),
            ),
        decreases height, n,
    {
        if n > 0 {
            Self::lemma_right_ends_behind(keys, children, lo, hi, height, fan, n - 1);
            assert(children.take(n).drop_last() =~= children.take(n - 1));
            let child = children[n - 1];
            assert(children.take(n).last() == child);
            let b = bound(keys, lo, hi as int, n - 1);
            let t = bound(keys, lo, hi as int, n);
            assert(child.wf(b, t, height, fan));
            child.law_right_ends(b, t as Key, height, fan, side(keys, n - 1));
            lemma_at_most_behind(
                Self::right_ends_of(keys, children.take(n - 1), height),
                Self::fences_of(keys, children.take(n - 1), hi, height),
                child.right_ends(side(keys, n - 1), height),
                child.fences(t as Key, height),
            );
        }
    }

    /// Separators next to children are their fences.
    proof fn lemma_right_ends_of(
        keys: Seq<Key>,
        children: Seq<Node<NUM_RECORDS, Record>>,
        lo: int,
        hi: Key,
        fan: nat,
        n: int,
    )
        requires
            Self::linked(keys, children, lo, hi as int, 2, fan),
            0 <= n <= keys.len(),
        ensures
            Self::right_ends_of(keys, children.take(n), 2) == Self::fences_of(
                keys,
                children.take(n),
                hi,
                2,
            ),
        decreases n,
    {
        if n > 0 {
            Self::lemma_right_ends_of(keys, children, lo, hi, fan, n - 1);
            assert(children.take(n).drop_last() =~= children.take(n - 1));
            let child = children[n - 1];
            assert(children.take(n).last() == child);
            assert(child.wf(
                bound(keys, lo, hi as int, n - 1),
                bound(keys, lo, hi as int, n),
                2,
                fan,
            ));
            let end = side(keys, n - 1);
            assert(bound(keys, 0, hi as int, n) == end);
            assert(child is Index);
            assert(child.right_ends(end, 2) == child.fences(end, 2));
        }
    }

    /// Lists the right ends of the leaves as they are read from the separators.
    pub fn collect_ends(
        &self,
        fence: Key,
        out: &mut Vec<Key>,
        Ghost(lo): Ghost<int>,
        Ghost(hi): Ghost<int>,
        Ghost(height): Ghost<nat>,
        Ghost(fan): Ghost<nat>,
    )
        requires
            self.wf(lo, hi, height, fan),
        ensures
            final(out)@ == old(out)@ + self.right_ends(fence, height),
        decreases height,
    {
        match self {
            Node::Leaf(_) => {
                assert(out@ + Seq::<Key>::empty() =~= out@);
            },
            Node::Index(page) => {
                let ghost keys = page.keys@;
                let ghost children = page.children@;
                let ghost start = out@;
                assert(children[0].wf(
                    bound(keys, lo, hi, 0),
                    bound(keys, lo, hi, 1),
                    (height - 1) as nat,
                    fan,
                ));
                let n: usize = page.keys.len();
                let mut i: usize = 0;
                if let Node::Leaf(_) = &page.children[0] {
                    assert(start + keys.take(0) =~= start);
                    while i < n
                        invariant
                            n == keys.len(),
                            keys == page.keys@,
                            i <= n,
                            out@ == start + keys.take(i as int),
                        decreases n - i,
                    {
                        out.push(page.keys[i]);
                        assert(out@ =~= start + keys.take(i + 1));
                        i = i + 1;
                    }
                    out.push(fence);
                    assert(keys.take(i as int) =~= keys);
                    assert(out@ =~= start + keys.push(fence));
                } else {
                    assert(children.take(0) =~= Seq::<Node<NUM_RECORDS, Record>>::empty());
                    assert(start + Seq::<Key>::empty() =~= start);
                    while i < page.children.len()
                        invariant
                            n == keys.len() > 0,
                            keys == page.keys@,
                            children == page.children@,
                            i <= children.len(),
                            height > 2,
                            Self::linked(keys, children, lo, hi, (height - 1) as nat, fan),
                            out@ == start + Self::right_ends_of(
                                keys,
                                children.take(i as int),
                                (height - 1) as nat,
                            ),
                        decreases children.len() - i,
                    {
                        let beside: Key = if i < n {
                            page.keys[i]
                        } else {
                            page.keys[n - 1]
                        };
                        let ghost before = out@;
                        page.children[i].collect_ends(
                            beside,
                            out,
                            Ghost(bound(keys, lo, hi, i as int)),
                            Ghost(bound(keys, lo, hi, i + 1)),
                            Ghost((height - 1) as nat),
                            Ghost(fan),
                        );
                        proof {
                            let t = children.take(i + 1);
                            assert(t.drop_last() =~= children.take(i as int));
                            assert(t.last() == children[i as int]);
                            assert(out@ =~= start + Self::right_ends_of(
                                keys,
                                t,
                                (height - 1) as nat,
                            ));
                        }
                        i = i + 1;
                    }
                    assert(children.take(i as int) =~= children);
                }
            },
        }
    }

    /// The leaf that a key belongs to, and the largest key that belongs there.
    pub fn leaf(
        &self,
        key: Key,
        max: Key,
        Ghost(lo): Ghost<int>,
        Ghost(height): Ghost<nat>,
        Ghost(fan): Ghost<nat>,
    ) -> (found: (&LeafPage<NUM_RECORDS, Record>, Key))
        requires
            self.wf(lo, max as int, height, fan),
        ensures
            *found.0 == self.leaf_for(key, height),
            found.1 == self.fence_hi(max as int, key, height),
        decreases height,
    {
        match self {
            Node::Leaf(page) => (page, max),
            Node::Index(page) => {
                let at = child_position(&page.keys, key);
                proof {
                    lemma_child_for(page.keys@, key);
                    assert(page.children@[at as int].wf(
                        bound(page.keys@, lo, max as int, at as int),
                        bound(page.keys@, lo, max as int, at + 1),
                        (height - 1) as nat,
                        fan,
                    ));
                }
                let upper = if at < page.keys.len() {
                    page.keys[at]
                } else {
                    max
                };
                page.children[at].leaf(
                    key,
                    upper,
                    Ghost(bound(page.keys@, lo, max as int, at as int)),
                    Ghost((height - 1) as nat),
                    Ghost(fan),
                )
            },
        }
    }

    /// `after` is `before` with another leaf for `key`, and well-formed if that leaf is.
    pub open spec fn patched(
        before: Self,
        after: Self,
        key: Key,
        lo: int,
        hi: int,
        height: nat,
        fan: nat,
        leaf: LeafPage<NUM_RECORDS, Record>,
    ) -> bool {
        &&& after.leaf_for(key, height) == leaf
        &&& after.before(key, height) == before.before(key, height)
        &&& after.after(key, height) == before.after(key, height)
        &&& ({
            &&& leaf.wf()
            &&& leaf_page::sorted(leaf@)
            &&& leaf_page::within(
                leaf@,
                before.fence_lo(lo, key, height),
                before.fence_hi(hi, key, height),
            )
        }) ==> after.wf(lo, hi, height, fan)
        &&& before.dense(height) && leaf@.len() > 0 ==> after.dense(height)
    }

    /// The leaf that a key belongs to, to be changed in place.
    pub fn leaf_mut(
        &mut self,
        key: Key,
        Ghost(lo): Ghost<int>,
        Ghost(hi): Ghost<int>,
        Ghost(height): Ghost<nat>,
        Ghost(fan): Ghost<nat>,
    ) -> (leaf: &mut LeafPage<NUM_RECORDS, Record>)
        requires
            old(self).wf(lo, hi, height, fan),
        ensures
            *leaf == old(self).leaf_for(key, height),
            Self::patched(*old(self), *final(self), key, lo, hi, height, fan, *final(leaf)),
        decreases height,
    {
        match self {
            Node::Leaf(page) => page,
            Node::Index(page) => {
                let ghost keys = page.keys@;
                let ghost children = page.children@;
                let at = child_position(&page.keys, key);
                proof {
                    lemma_child_for(keys, key);
                    assert(children[at as int].wf(
                        bound(keys, lo, hi, at as int),
                        bound(keys, lo, hi, at + 1),
                        (height - 1) as nat,
                        fan,
                    ));
                    assert(bound(keys, lo, lo, at as int) == bound(keys, lo, hi, at as int));
                    assert(bound(keys, hi, hi, at + 1) == bound(keys, lo, hi, at + 1));
                    assert forall|c: Node<NUM_RECORDS, Record>|
                        children.update(at as int, c).take(at as int) =~= children.take(
                            at as int,
                        ) by {}
                    assert forall|c: Node<NUM_RECORDS, Record>|
                        children.update(at as int, c).skip(at + 1) =~= children.skip(at + 1) by {}
                }
                page.children[at].leaf_mut(
                    key,
                    Ghost(bound(keys, lo, hi, at as int)),
                    Ghost(bound(keys, lo, hi, at + 1)),
                    Ghost((height - 1) as nat),
                    Ghost(fan),
                )
            },
        }
    }

    /// Two subtrees hold the records of one, parted by `sep`, and the leaf for `key` has room.
    pub open spec fn cut_in_two(
        whole: Self,
        left: Self,
        sep: Key,
        right: Self,
        key: Key,
        lo: int,
        hi: int,
        height: nat,
        fan: nat,
    ) -> bool {
        &&& lo < sep < hi
        &&& left.wf(lo, sep as int, height, fan)
        &&& right.wf(sep as int, hi, height, fan)
        &&& left.dense(height)
        &&& right.dense(height)
        &&& left.records() + right.records() == whole.records()
        &&& key <= sep ==> left.leaf_for(key, height)@.len() < NUM_RECORDS
        &&& key > sep ==> right.leaf_for(key, height)@.len() < NUM_RECORDS
    }

    /// The same records, and the leaf for `key` has room.
    pub open spec fn roomy(
        before: Self,
        after: Self,
        key: Key,
        lo: int,
        hi: int,
        height: nat,
        fan: nat,
    ) -> bool {
        &&& after.wf(lo, hi, height, fan)
        &&& height > 1 ==> after.dense(height)
        &&& after.records() == before.records()
        &&& after.leaf_for(key, height)@.len() < NUM_RECORDS
    }

    /// Cuts an index page in two halves, and returns the right half with the separator.
    fn halve(
        page: &mut IndexPage<NUM_RECORDS, Record>,
        Ghost(key): Ghost<Key>,
        Ghost(lo): Ghost<int>,
        Ghost(hi): Ghost<int>,
        Ghost(height): Ghost<nat>,
        Ghost(fan): Ghost<nat>,
    ) -> (cut: (Key, IndexPage<NUM_RECORDS, Record>))
        requires
            Self::linked(old(page).keys@, old(page).children@, lo, hi, height, fan),
            4 <= old(page).children@.len() <= fan + 1,
            Node::Index(*old(page)).dense(height + 1),
            Node::Index(*old(page)).leaf_for(key, height + 1)@.len() < NUM_RECORDS,
        ensures
            Self::cut_in_two(
                Node::Index(*old(page)),
                Node::Index(*final(page)),
                cut.0,
                Node::Index(cut.1),
                key,
                lo,
                hi,
                height + 1,
                fan,
            ),
    {
        let ghost ks = page.keys@;
        let ghost cs = page.children@;
        let mid: usize = page.children.len() / 2;
        let right_children = page.children.split_off(mid);
        let right_keys = page.keys.split_off(mid);
        let middle = page.keys.pop().unwrap();
        let right = IndexPage { keys: right_keys, children: right_children };
        proof {
            Self::lemma_cut(ks, cs, lo, hi, height, fan, mid as int);
            assert(page.keys@ =~= ks.take(mid - 1));
            assert(page.children@ =~= cs.take(mid as int));
            assert(right.keys@ =~= ks.skip(mid as int));
            assert(right.children@ =~= cs.skip(mid as int));
            lemma_child_for(ks, key);
            let to = child_for(ks, key);
            assert(ks[mid - 1] == middle);
            if key <= middle {
                lemma_child_for_is(page.keys@, key, to);
                assert(page.children@[to] == cs[to]);
            } else {
                lemma_child_for_is(right.keys@, key, to - mid);
                assert(right.children@[to - mid] == cs[to]);
            }
            assert(forall|i: int| #![trigger cs[i]]
                0 <= i < cs.len() ==> cs[i].dense(height));
            assert forall|i: int| #![trigger page.children@[i]]
                0 <= i < page.children@.len() implies page.children@[i].dense(height) by {
                assert(page.children@[i] == cs[i]);
            }
            assert forall|i: int| #![trigger right.children@[i]]
                0 <= i < right.children@.len() implies right.children@[i].dense(height) by {
                assert(right.children@[i] == cs[i + mid]);
            }
        }
        (middle, right)
    }

    /// Cuts a full leaf in two halves, and returns the right half with the largest key that
    /// stays.
    fn halve_leaf(
        page: &mut LeafPage<NUM_RECORDS, Record>,
        Ghost(key): Ghost<Key>,
        Ghost(lo): Ghost<int>,
        Ghost(hi): Ghost<int>,
        Ghost(fan): Ghost<nat>,
    ) -> (cut: (Key, LeafPage<NUM_RECORDS, Record>))
        requires
            Node::Leaf(*old(page)).wf(lo, hi, 1, fan),
            old(page)@.len() >= 2,
        ensures
            Self::cut_in_two(
                Node::Leaf(*old(page)),
                Node::Leaf(*final(page)),
                cut.0,
                Node::Leaf(cut.1),
                key,
                lo,
                hi,
                1,
                fan,
            ),
    {
        let mid: usize = page.len() / 2;
        let tail = page.record_data.split_off(mid);
        let right = LeafPage { record_data: tail };
        let sep = page.record_data.get_unchecked(mid - 1).record_key();
        assert(page@ + right@ =~= old(page)@);
        assert(right@[0] == old(page)@[mid as int]);
        assert(page@[mid - 1] == old(page)@[mid - 1]);
        (sep, right)
    }

    /// Puts the right part of a child that was cut in two behind its left part.
    fn adopt(
        page: &mut IndexPage<NUM_RECORDS, Record>,
        at: usize,
        sep: Key,
        right: Node<NUM_RECORDS, Record>,
        Ghost(before): Ghost<IndexPage<NUM_RECORDS, Record>>,
        Ghost(key): Ghost<Key>,
        Ghost(lo): Ghost<int>,
        Ghost(hi): Ghost<int>,
        Ghost(height): Ghost<nat>,
        Ghost(fan): Ghost<nat>,
    )
        requires
            Self::linked(before.keys@, before.children@, lo, hi, height, fan),
            2 <= before.children@.len() <= fan,
            fan < usize::MAX,
            Node::Index(before).dense(height + 1),
            at == child_for(before.keys@, key),
            old(page).keys == before.keys,
            old(page).children@ == before.children@.update(
                at as int,
                old(page).children@[at as int],
            ),
            Self::cut_in_two(
                before.children@[at as int],
                old(page).children@[at as int],
                sep,
                right,
                key,
                bound(before.keys@, lo, hi, at as int),
                bound(before.keys@, lo, hi, at + 1),
                height,
                fan,
            ),
        ensures
            Self::linked(final(page).keys@, final(page).children@, lo, hi, height, fan),
            Self::flat(final(page).children@) == Self::flat(before.children@),
            final(page).children@.len() == before.children@.len() + 1,
            Node::Index(*final(page)).dense(height + 1),
            Node::Index(*final(page)).leaf_for(key, height + 1)@.len() < NUM_RECORDS,
    {
        let ghost keys = before.keys@;
        let ghost children = before.children@;
        let ghost left = page.children@[at as int];
        proof {
            assert forall|i: int| #![trigger children[i]]
                0 <= i < children.len() implies children[i].dense(height) by {
                assert(Node::Index(before)->Index_0.children@[i].dense(
                    (height + 1 - 1) as nat,
                ));
            }
            lemma_child_for(keys, key);
            Self::lemma_insert_child(
                keys,
                children,
                lo,
                hi,
                height,
                fan,
                at as int,
                sep,
                left,
                right,
            );
        }
        page.keys.insert(at, sep);
        page.children.insert(at + 1, right);
        proof {
            let ks = page.keys@;
            let cs = page.children@;
            let to = if key <= sep {
                at as int
            } else {
                at + 1
            };
            assert forall|i: int| 0 <= i < to implies #[trigger] ks[i] < key by {
                if i < at {
                    assert(ks[i] == keys[i]);
                }
            }
            assert forall|i: int| to <= i < ks.len() implies #[trigger] ks[i] >= key by {
                if i > at {
                    assert(ks[i] == keys[i - 1]);
                }
            }
            lemma_child_for_is(ks, key, to);
            assert forall|i: int| #![trigger cs[i]] 0 <= i < cs.len() implies cs[i].dense(
                height,
            ) by {
                if i < at {
                    assert(cs[i] == children[i]);
                } else if i > at + 1 {
                    assert(cs[i] == children[i - 1]);
                }
            }
        }
    }

    /// A child that only got room leaves the page as good as it was.
    proof fn lemma_roomy_child(
        before: IndexPage<NUM_RECORDS, Record>,
        after: IndexPage<NUM_RECORDS, Record>,
        at: int,
        key: Key,
        lo: int,
        hi: int,
        height: nat,
        fan: nat,
    )
        requires
            Node::Index(before).wf(lo, hi, height + 1, fan),
            Node::Index(before).dense(height + 1),
            at == child_for(before.keys@, key),
            after.keys == before.keys,
            after.children@ == before.children@.update(at, after.children@[at]),
            Self::roomy(
                before.children@[at],
                after.children@[at],
                key,
                bound(before.keys@, lo, hi, at),
                bound(before.keys@, lo, hi, at + 1),
                height,
                fan,
            ),
        ensures
            Self::roomy(
                Node::Index(before),
                Node::Index(after),
                key,
                lo,
                hi,
                height + 1,
                fan,
            ),
    {
        let children = before.children@;
        let cs = after.children@;
        lemma_child_for(before.keys@, key);
        Self::lemma_flat_split(children, at);
        Self::lemma_flat_split(cs, at);
        assert(cs.take(at) =~= children.take(at));
        assert(cs.skip(at + 1) =~= children.skip(at + 1));
        assert(forall|i: int| #![trigger children[i]]
            0 <= i < children.len() ==> children[i].dense(height));
        assert(cs[at].dense(height)) by {
            assert(children[at].dense(height));
            if height == 1 {
                assert(children[at].wf(
                    bound(before.keys@, lo, hi, at),
                    bound(before.keys@, lo, hi, at + 1),
                    height,
                    fan,
                ));
                assert(cs[at].records().len() > 0);
            }
        }
    }

    /// Makes room for a key: cuts the leaf that the key belongs to in two if it is full, and
    /// every page above that has more than `fan` children then. What is cut off this subtree
    /// itself is returned, with the largest key that stays.
    pub fn split_for(
        &mut self,
        key: Key,
        fan: usize,
        Ghost(lo): Ghost<int>,
        Ghost(hi): Ghost<int>,
        Ghost(height): Ghost<nat>,
    ) -> (cut: Option<(Key, Node<NUM_RECORDS, Record>)>)
        requires
            old(self).wf(lo, hi, height, fan as nat),
            height > 1 ==> old(self).dense(height),
            NUM_RECORDS >= 2,
            3 <= fan < usize::MAX,
        ensures
            cut matches None ==> Self::roomy(
                *old(self),
                *final(self),
                key,
                lo,
                hi,
                height,
                fan as nat,
            ),
            cut matches Some((sep, right)) ==> Self::cut_in_two(
                *old(self),
                *final(self),
                sep,
                right,
                key,
                lo,
                hi,
                height,
                fan as nat,
            ),
        decreases height,
    {
        match self {
            Node::Leaf(page) => {
                if !page.is_full() {
                    return None;
                }
                let (sep, right) = Self::halve_leaf(
                    page,
                    Ghost(key),
                    Ghost(lo),
                    Ghost(hi),
                    Ghost(fan as nat),
                );
                Some((sep, Node::Leaf(right)))
            },
            Node::Index(page) => {
                let ghost before = *page;
                let ghost keys = page.keys@;
                let ghost children = page.children@;
                let ghost below = (height - 1) as nat;
                let at = child_position(&page.keys, key);
                proof {
                    lemma_child_for(keys, key);
                    assert(children[at as int].wf(
                        bound(keys, lo, hi, at as int),
                        bound(keys, lo, hi, at + 1),
                        below,
                        fan as nat,
                    ));
                    assert(children[at as int].dense(below));
                }
                let cut = page.children[at].split_for(
                    key,
                    fan,
                    Ghost(bound(keys, lo, hi, at as int)),
                    Ghost(bound(keys, lo, hi, at + 1)),
                    Ghost(below),
                );
                match cut {
                    None => {
                        proof {
                            Self::lemma_roomy_child(
                                before,
                                *page,
                                at as int,
                                key,
                                lo,
                                hi,
                                below,
                                fan as nat,
                            );
                        }
                        None
                    },
                    Some((sep, right)) => {
                        Self::adopt(
                            page,
                            at,
                            sep,
                            right,
                            Ghost(before),
                            Ghost(key),
                            Ghost(lo),
                            Ghost(hi),
                            Ghost(below),
                            Ghost(fan as nat),
                        );
                        if page.children.len() <= fan {
                            None
                        } else {
                            let (middle, right) = Self::halve(
                                page,
                                Ghost(key),
                                Ghost(lo),
                                Ghost(hi),
                                Ghost(below),
                                Ghost(fan as nat),
                            );
                            Some((middle, Node::Index(right)))
                        }
                    },
                }
            },
        }
    }
}

/// The position of the child that a key belongs to.
fn child_position(keys: &Vec<Key>, key: Key) -> (at: usize)
    requires
        ascending(keys@),
    ensures
        at == child_for(keys@, key),
        at <= keys@.len(),
{
    let mut low: usize = 0;
    let mut high: usize = keys.len();
    while low < high
        invariant
            ascending(keys@),
            low <= high <= keys@.len(),
            forall|i: int| 0 <= i < low ==> #[trigger] keys@[i] < key,
            forall|i: int| high <= i < keys@.len() ==> #[trigger] keys@[i] >= key,
        decreases high - low,
    {
        let mid: usize = low + (high - low) / 2;
        if keys[mid] < key {
            low = mid + 1;
        } else {
            high = mid;
        }
    }
    proof {
        lemma_child_for_is(keys@, key, low as int);
    }
    low
}

} // verus!
