//! Versions of one record in a B+ tree of their own, keyed by insert version.

use vstd::prelude::*;
use vstd::arithmetic::power2;
use crate::page_model::leaf_page;
use crate::page_model::leaf_page::Keyed;
use crate::record_model::record_point::RecordPoint;
use crate::record_model::v_record_point::RecordInfo;
use crate::record_model::version_info::DeletedVersionInfo;
use crate::record_model::{Key, Payload, Version};
use crate::tree::record_tree::RecordTree;
use crate::tree::NUM_RECORDS;
use crate::version_index::skip_list::VersionPoint;

verus! {

/// Children of an index page of a version tree.
pub const BTREE_V_INDEX_FAN_OUT: usize = NUM_RECORDS / 3;

/// Versions on a leaf page of a version tree.
pub const BTREE_V_INDEX_NUMBER_RECORDS: usize = BTREE_V_INDEX_FAN_OUT * 2;

/// A version and the end of its life, by insert version.
pub type VersionRecord = RecordPoint<Version, RecordInfo<Payload>>;

/// The versions of a record by insert version.
pub type DexaBTree = RecordTree<
    BTREE_V_INDEX_FAN_OUT,
    BTREE_V_INDEX_NUMBER_RECORDS,
    VersionRecord,
>;

impl<Payload> Keyed for RecordPoint<Key, Payload> {
    open spec fn key_of(&self) -> Key {
        self.key
    }

    fn record_key(&self) -> (key: Key) {
        self.key
    }
}

/// The version that was inserted at exactly `version`, deleted or not.
pub open spec fn tree_lookup(s: Seq<VersionRecord>, version: Version) -> Option<VersionPoint> {
    let at = leaf_page::rank(s, version);
    if at < s.len() && s[at].key == version {
        Some(RecordPoint { key: version, payload: s[at].payload.payload })
    } else {
        None
    }
}

/// Some version was inserted at exactly `version`.
pub open spec fn tree_has(s: Seq<VersionRecord>, version: Version) -> bool {
    exists|i: int| 0 <= i < s.len() && (#[trigger] s[i]).key == version
}

/// The newest version, ended at `version` if it was live.
pub open spec fn tree_closed(s: Seq<VersionRecord>, version: Version) -> Seq<VersionRecord> {
    if s.last().payload.live() {
        s.update(
            s.len() - 1,
            RecordPoint { key: s.last().key, payload: s.last().payload.ended(version) },
        )
    } else {
        s
    }
}

/// A new version that ends the newest one.
pub open spec fn tree_pushed(
    s: Seq<VersionRecord>,
    insert_version: Version,
    payload: Payload,
) -> Seq<VersionRecord> {
    tree_closed(s, insert_version).insert(
        leaf_page::rank(s, insert_version),
        RecordPoint { key: insert_version, payload: RecordInfo::fresh(payload) },
    )
}

/// Whether a deletion at `del_version` takes effect: the newest version must be live and
/// older.
pub open spec fn tree_deletable(s: Seq<VersionRecord>, del_version: Version) -> bool {
    &&& s.len() > 0
    &&& s.last().key < del_version
    &&& s.last().payload.live()
}

/// The versions after a deletion at `del_version`.
pub open spec fn tree_deleted(s: Seq<VersionRecord>, del_version: Version) -> Seq<VersionRecord> {
    if tree_deletable(s, del_version) {
        tree_closed(s, del_version)
    } else {
        s
    }
}

/// A tree without versions.
pub fn new_btree() -> (tree: DexaBTree)
    ensures
        tree.wf(),
        tree@ == Seq::<VersionRecord>::empty(),
        tree.levels() == 1,
{
    RecordTree::new()
}

/// The newest version, if there is any.
fn tree_peek_max(tree: &DexaBTree) -> (newest: Option<VersionRecord>)
    requires
        tree.wf(),
    ensures
        newest == (if tree@.len() > 0 {
            Some(tree@.last())
        } else {
            None
        }),
{
    let (page, _) = tree.page(Version::MAX);
    proof {
        tree.lemma_page(Version::MAX);
    }
    let n = page.len();
    if n == 0 {
        None
    } else {
        Some(*page.record_data.get_unchecked(n - 1))
    }
}

/// The version that was inserted at exactly `version`.
pub fn tree_find(tree: &DexaBTree, version: Version) -> (found: Option<VersionPoint>)
    requires
        tree.wf(),
    ensures
        found == tree_lookup(tree@, version),
{
    proof {
        tree.lemma_in_page(version);
    }
    match tree.find(version) {
        Some(record) => Some(RecordPoint::new(record.key, record.payload.payload)),
        None => None,
    }
}

/// Ends the newest version at `end` if it is live.
fn tree_close(tree: &mut DexaBTree, newest: VersionRecord, end: Version)
    requires
        old(tree).wf(),
        old(tree)@.len() > 0,
        newest == old(tree)@.last(),
    ensures
        final(tree).wf(),
        final(tree)@ == tree_closed(old(tree)@, end),
        final(tree).levels() == old(tree).levels(),
{
    if newest.payload.del_version.get().is_none() {
        proof {
            let s = tree@;
            tree.lemma_page(newest.key);
            assert(s[s.len() - 1].key_of() == newest.key);
            leaf_page::lemma_rank_is(s, newest.key, s.len() - 1);
        }
        let record = tree.get_mut(newest.key);
        record.payload.del_version = DeletedVersionInfo::at(end);
    }
}

/// Ends the newest version if it is live, puts a new one into the tree, and hands out the
/// payload that was newest before.
pub fn tree_push(tree: &mut DexaBTree, insert_version: Version, payload: Payload) -> (before:
    Payload)
    requires
        old(tree).wf(),
        old(tree)@.len() > 0,
        !tree_has(old(tree)@, insert_version),
    ensures
        final(tree).wf(),
        final(tree)@ == tree_pushed(old(tree)@, insert_version, payload),
        before == old(tree)@.last().payload.payload,
        old(tree).levels() <= final(tree).levels() <= old(tree).levels() + 1,
{
    let newest = tree_peek_max(tree).unwrap();
    let ghost s = tree@;
    tree_close(tree, newest, insert_version);
    proof {
        let t = tree@;
        tree.lemma_page(insert_version);
        assert forall|i: int| 0 <= i < s.len() implies (#[trigger] t[i]).key == s[i].key by {}
        assert(!tree.has(insert_version)) by {
            if tree.has(insert_version) {
                let i = choose|i: int|
                    0 <= i < t.len() && (#[trigger] t[i]).key_of() == insert_version;
                assert(s[i].key == insert_version);
            }
        }
        leaf_page::lemma_rank(t, insert_version);
        let r = leaf_page::rank(t, insert_version);
        assert forall|i: int, j: int| 0 <= i < j < s.len() implies s[i].key_of()
            < s[j].key_of() by {
            assert(t[i].key_of() < t[j].key_of());
        }
        assert forall|i: int| 0 <= i < r implies (#[trigger] s[i]).key_of() < insert_version by {
            assert(t[i].key_of() < insert_version);
        }
        assert forall|i: int| r <= i < s.len() implies (#[trigger] s[i]).key_of()
            >= insert_version by {
            assert(t[i].key_of() >= insert_version);
        }
        leaf_page::lemma_rank_is(s, insert_version, r);
    }
    tree.insert(RecordPoint::new(insert_version, RecordInfo::new(payload)));
    newest.payload.payload
}

/// Ends the newest version at `del_version` and hands out its payload, if it is live and was
/// inserted before.
pub fn tree_delete(tree: &mut DexaBTree, del_version: Version) -> (ended: Option<Payload>)
    requires
        old(tree).wf(),
    ensures
        final(tree).wf(),
        final(tree)@ == tree_deleted(old(tree)@, del_version),
        final(tree).levels() == old(tree).levels(),
        ended == (if tree_deletable(old(tree)@, del_version) {
            Some(old(tree)@.last().payload.payload)
        } else {
            None
        }),
{
    match tree_peek_max(tree) {
        Some(newest) => {
            if newest.key < del_version && newest.payload.del_version.get().is_none() {
                tree_close(tree, newest, del_version);
                Some(newest.payload.payload)
            } else {
                None
            }
        },
        None => None,
    }
}

/// Whether there is a newest version and it is live.
pub fn tree_is_live(tree: &DexaBTree) -> (r: bool)
    requires
        tree.wf(),
    ensures
        r == (tree@.len() > 0 && tree@.last().payload.live()),
{
    match tree_peek_max(tree) {
        Some(newest) => newest.payload.del_version.get().is_none(),
        None => false,
    }
}

/// The newest payload, live or not.
pub fn tree_newest_payload(tree: &DexaBTree) -> (payload: Payload)
    requires
        tree.wf(),
        tree@.len() > 0,
    ensures
        payload == tree@.last().payload.payload,
{
    tree_peek_max(tree).unwrap().payload.payload
}

/// What stands for the number of versions: the number of nodes that a binary tree of the same
/// height has.
pub fn tree_len(tree: &DexaBTree) -> (n: usize)
    requires
        tree.levels() < usize::BITS,
    ensures
        n == power2::pow2(tree.levels()) - 1,
{
    let height = tree.height();
    let mut n: usize = 0;
    let mut i: usize = 0;
    proof {
        power2::lemma2_to64();
    }
    while i < height
        invariant
            i <= height,
            height < usize::BITS,
            n == power2::pow2(i as nat) - 1,
        decreases height - i,
    {
        proof {
            power2::lemma_pow2_unfold((i + 1) as nat);
            power2::lemma2_to64();
            power2::lemma2_to64_rest();
            if i + 1 < usize::BITS - 1 {
                power2::lemma_pow2_strictly_increases((i + 1) as nat, (usize::BITS - 1) as nat);
            }
        }
        n = n + n + 1;
        i = i + 1;
    }
    n
}

/// A tree of `n + 1` levels holds at least two to the power of `n` versions, and there are not
/// enough versions for more than sixty-five levels.
pub open spec fn flat(s: Seq<VersionRecord>, levels: nat) -> bool {
    &&& 1 <= levels <= 65
    &&& levels > 1 ==> s.len() >= power2::pow2((levels - 1) as nat)
}

/// A tree of its own with the same versions.
pub fn tree_clone(tree: &DexaBTree) -> (copy: DexaBTree)
    requires
        tree.wf(),
    ensures
        copy.wf(),
        copy@ == tree@,
        flat(copy@, copy.levels()),
{
    let mut copy = new_btree();
    let mut lower: Version = 0;
    let ghost s = tree@;
    proof {
        tree.lemma_page(lower);
        leaf_page::lemma_rank_is(s, lower, 0);
        assert(copy@ =~= s.take(leaf_page::rank(s, lower)));
    }
    loop
        invariant_except_break
            copy@ == s.take(leaf_page::rank(s, lower)),
        invariant
            tree.wf(),
            copy.wf(),
            s == tree@,
            leaf_page::sorted(s),
        ensures
            copy@ == s,
        decreases Version::MAX - lower,
    {
        let (page, upper) = tree.page(lower);
        let n = page.len();
        let mut i: usize = match page.search(lower) {
            Ok(at) => at,
            Err(at) => at,
        };
        let ghost start = tree.page_start(lower);
        proof {
            tree.lemma_page(lower);
            tree.lemma_in_page(lower);
        }
        while i < n
            invariant
                copy.wf(),
                s == tree@,
                leaf_page::sorted(s),
                start == tree.page_start(lower),
                0 <= start <= tree.page_end(lower) <= s.len(),
                page@ == tree.page_of(lower),
                i <= n,
                n == page@.len(),
                copy@ == s.take(start + i),
            decreases n - i,
        {
            let record = *page.record_data.get_unchecked(i);
            proof {
                assert(record == s[start + i]);
                let t = copy@;
                assert(!copy.has(record.key)) by {
                    if copy.has(record.key) {
                        let j = choose|j: int|
                            0 <= j < t.len() && (#[trigger] t[j]).key_of() == record.key;
                        assert(t[j] == s[j]);
                        assert(s[j].key_of() < s[start + i].key_of());
                    }
                }
                copy.lemma_page(record.key);
                leaf_page::lemma_rank(t, record.key);
                assert forall|j: int| 0 <= j < t.len() implies (#[trigger] t[j]).key_of()
                    < record.key by {
                    assert(t[j] == s[j]);
                    assert(s[j].key_of() < s[start + i].key_of());
                }
                leaf_page::lemma_rank_is(t, record.key, t.len() as int);
                assert(t.insert(t.len() as int, record) =~= s.take(start + i + 1));
            }
            copy.insert(record);
            i = i + 1;
        }
        if upper == Version::MAX {
            assert(tree.page_end(lower) == s.len()) by {
                if tree.page_end(lower) < s.len() {
                    assert(s[tree.page_end(lower)].key_of() > upper);
                }
            }
            assert(copy@ =~= s);
            break;
        }
        proof {
            let next: Version = (upper + 1) as Version;
            leaf_page::lemma_rank_is(s, next, tree.page_end(lower));
        }
        lower = upper + 1;
    }
    proof {
        copy.lemma_levels();
    }
    copy
}

} // verus!
