//! One version index of several kinds, for writers that do not ask what they replaced.

use vstd::prelude::*;
use vstd::arithmetic::power2;
use crate::mvb_version_index::frugal;
use crate::mvb_version_index::frugal::AtomicFrugalList;
use crate::mvb_version_index::vanilla;
use crate::mvb_version_index::vanilla::AtomicVersionList;
use crate::record_model::node_versions;
use crate::record_model::record_point::RecordPoint;
use crate::record_model::v_record_point::VersionIndexType;
use crate::record_model::versioned_entry;
use crate::record_model::versioned_entry::VersionedEntry;
use crate::record_model::{Key, Payload, Version};
use crate::version_index::index_view::IndexView;
use crate::version_index::skip_list;
use crate::version_index::skip_list::{
    skip_clone, skip_delete, skip_find, skip_is_live, skip_len, skip_new, skip_newest_payload,
    skip_push, SkipListImpl, VersionPoint,
};
use crate::version_index::v_weaver;
use crate::version_index::v_weaver::{AtomicVWeaverList, WeaverNodeLink};
use crate::version_index::version_index;
use crate::version_index::version_tree;
use crate::version_index::version_tree::{
    new_btree, tree_clone, tree_delete, tree_find, tree_is_live, tree_len, tree_newest_payload,
    tree_push, DexaBTree,
};

verus! {

/// The versions of one record.
pub enum VersionIndex {
    FrugalSkipList(AtomicFrugalList<Payload>),
    VWEAVER(AtomicVWeaverList<Key, Payload>),
    VANILLA(AtomicVersionList<Payload>),
    SkipList(SkipListImpl),
    DexaBTree(DexaBTree),
}

impl VersionIndex {
    /// The history of the record.
    pub open spec fn view(&self) -> IndexView {
        match self {
            VersionIndex::FrugalSkipList(list) => IndexView::Nodes(list@),
            VersionIndex::VWEAVER(weaver) => IndexView::Nodes(weaver@),
            VersionIndex::VANILLA(list) => IndexView::Entries(list@),
            VersionIndex::SkipList(list) => IndexView::Skip(skip_list::skip_contents(*list)),
            VersionIndex::DexaBTree(tree) => IndexView::Tree(tree@),
        }
    }

    /// The structure is sound and, unless it is a tree, holds a version.
    pub open spec fn wf(&self) -> bool {
        match self {
            VersionIndex::FrugalSkipList(list) => list.wf() && list@.len() > 0,
            VersionIndex::VWEAVER(weaver) => weaver.wf(),
            VersionIndex::VANILLA(list) => list@.len() > 0,
            VersionIndex::SkipList(list) => skip_list::has_last(skip_list::skip_contents(*list)),
            VersionIndex::DexaBTree(tree) => tree.wf(),
        }
    }

    /// The kind of the structure.
    pub open spec fn kind(&self) -> VersionIndexType {
        match self {
            VersionIndex::FrugalSkipList(_) => VersionIndexType::FrugalSkipList,
            VersionIndex::VWEAVER(_) => VersionIndexType::VWEAVER,
            VersionIndex::VANILLA(_) => VersionIndexType::VANILLA,
            VersionIndex::SkipList(_) => VersionIndexType::SkipList,
            VersionIndex::DexaBTree(_) => VersionIndexType::BTree,
        }
    }

    /// What a search for `version` comes to. In lists with skip links it follows these, and
    /// they can only be relied on if versions were appended in their order.
    pub open spec fn sought(&self, version: Version) -> Option<VersionPoint> {
        match self {
            VersionIndex::VWEAVER(weaver) => match v_weaver::searched(
                weaver.nodes(),
                weaver@.len() - 1,
                version,
                false,
            ) {
                Some(at) => Some(
                    RecordPoint {
                        key: weaver.nodes()[at as int].insert_version,
                        payload: weaver.nodes()[at as int].payload->0,
                    },
                ),
                None => None,
            },
            VersionIndex::FrugalSkipList(list) => match frugal::searched(
                list.nodes(),
                list@.len() - 1,
                version,
                false,
            ) {
                Some(node) => Some(
                    RecordPoint { key: node.insert_version, payload: node.payload->0 },
                ),
                None => None,
            },
            _ => self@.lookup(version),
        }
    }

    /// The number that the structure gives for its length.
    pub open spec fn size(&self) -> nat {
        match self {
            VersionIndex::FrugalSkipList(list) => node_versions::live_count(list@),
            VersionIndex::VWEAVER(weaver) => node_versions::live_count(weaver@),
            VersionIndex::VANILLA(list) => list@.len(),
            VersionIndex::SkipList(list) => skip_list::skip_contents(*list).len(),
            VersionIndex::DexaBTree(tree) => (power2::pow2(tree.levels()) - 1) as nat,
        }
    }

    /// An index for a record that was just inserted. There is no kind with a lock here.
    pub fn new(key: Key, kind: VersionIndexType, payload: Payload, version: Version) -> (index:
        Self)
        requires
            !(kind is SkipListSynced),
        ensures
            index.wf(),
            index.kind() == kind,
            index@ == version_index::VersionIndex::initial(kind, payload, version),
            index matches VersionIndex::VWEAVER(weaver) ==> weaver.key() == key,
            index matches VersionIndex::DexaBTree(tree) ==> tree.levels() == 1,
    {
        match kind {
            VersionIndexType::FrugalSkipList => VersionIndex::FrugalSkipList(
                AtomicFrugalList::new(payload, version),
            ),
            VersionIndexType::VANILLA => VersionIndex::VANILLA(
                AtomicVersionList::new(payload, version, None),
            ),
            VersionIndexType::SkipList | VersionIndexType::SkipListSynced => {
                let list = skip_new(version, payload);
                assert(skip_list::is_last(skip_list::skip_contents(list), version));
                VersionIndex::SkipList(list)
            },
            VersionIndexType::BTree => VersionIndex::DexaBTree(new_btree()),
            VersionIndexType::VWEAVER => VersionIndex::VWEAVER(
                AtomicVWeaverList::new(key, payload, version),
            ),
        }
    }

    /// The number that the structure gives for its length.
    pub fn len(&self) -> (n: usize)
        requires
            self.wf(),
            self matches VersionIndex::DexaBTree(tree) ==> tree.levels() < usize::BITS,
        ensures
            n == self.size(),
    {
        match self {
            VersionIndex::VANILLA(list) => list.len(),
            VersionIndex::SkipList(list) => skip_len(list),
            VersionIndex::FrugalSkipList(list) => list.len(),
            VersionIndex::DexaBTree(tree) => tree_len(tree),
            VersionIndex::VWEAVER(weaver) => weaver.len(),
        }
    }

    /// The node of a weaver list that a reader of snapshot `version` sees; nothing for the
    /// other kinds.
    pub fn find_weaver_node(&self, version: Version) -> (found: WeaverNodeLink)
        requires
            self.wf(),
        ensures
            found == (match self {
                VersionIndex::VWEAVER(weaver) => v_weaver::searched(
                    weaver.nodes(),
                    weaver@.len() - 1,
                    version,
                    false,
                ),
                _ => None,
            }),
    {
        match self {
            VersionIndex::VWEAVER(weaver) => weaver.find(version),
            _ => None,
        }
    }

    /// The node of a weaver list that a reader of snapshot `version` sees, be it a tombstone;
    /// nothing for the other kinds.
    pub fn find_weaver_node_or_tombstone(&self, version: Version) -> (found: WeaverNodeLink)
        requires
            self.wf(),
        ensures
            found == (match self {
                VersionIndex::VWEAVER(weaver) => v_weaver::searched(
                    weaver.nodes(),
                    weaver@.len() - 1,
                    version,
                    true,
                ),
                _ => None,
            }),
    {
        match self {
            VersionIndex::VWEAVER(weaver) => weaver.find_any(version),
            _ => None,
        }
    }

    /// What a reader of snapshot `version` sees.
    pub fn find(&self, version: Version) -> (found: Option<VersionPoint>)
        requires
            self.wf(),
        ensures
            found == self.sought(version),
            self@.ordered() ==> found == self@.lookup(version),
    {
        match self {
            VersionIndex::VANILLA(list) => match list.find(version) {
                Some(entry) => Some(RecordPoint::new(entry.insert_version, entry.payload)),
                None => None,
            },
            VersionIndex::SkipList(list) => skip_find(list, version),
            VersionIndex::DexaBTree(tree) => tree_find(tree, version),
            VersionIndex::FrugalSkipList(list) => match list.find(version) {
                Some(node) => Some(RecordPoint::new(node.insert_version, node.payload.unwrap())),
                None => None,
            },
            VersionIndex::VWEAVER(weaver) => match weaver.find(version) {
                Some(at) => {
                    let node = weaver.node(at);
                    Some(RecordPoint::new(node.insert_version, node.payload.unwrap()))
                },
                None => None,
            },
        }
    }

    /// Puts a new version on top, and ends the version below if it was live.
    pub fn push(&mut self, insert_version: Version, payload: Payload)
        requires
            old(self).wf(),
            old(self)@.filled(),
            *old(self) matches VersionIndex::DexaBTree(tree) ==> !version_tree::tree_has(
                tree@,
                insert_version,
            ),
        ensures
            final(self).wf(),
            final(self).kind() == old(self).kind(),
            final(self)@ == old(self)@.appended(insert_version, payload),
            *old(self) matches VersionIndex::VWEAVER(before) ==> {
                &&& *final(self) matches VersionIndex::VWEAVER(after)
                &&& after.key() == before.key()
                &&& after.nodes().drop_last() == before.nodes()
                &&& after.nodes().last().k_ridgy is None
            },
            *old(self) matches VersionIndex::DexaBTree(before) ==> {
                &&& *final(self) matches VersionIndex::DexaBTree(after)
                &&& before.levels() <= after.levels() <= before.levels() + 1
            },
    {
        match self {
            VersionIndex::FrugalSkipList(list) => list.push(Some(payload), insert_version),
            VersionIndex::VANILLA(list) => list.push(insert_version, payload),
            VersionIndex::SkipList(list) => {
                proof {
                    skip_list::lemma_push_keeps_last(
                        skip_list::skip_contents(*list),
                        insert_version,
                        payload,
                    );
                }
                let _ = skip_push(list, insert_version, payload);
            },
            VersionIndex::DexaBTree(tree) => {
                let _ = tree_push(tree, insert_version, payload);
            },
            VersionIndex::VWEAVER(weaver) => weaver.push(Some(payload), insert_version),
        }
    }

    /// Puts a new version on top, and ends the version below if it was live. A skip list whose
    /// newest version was deleted stays as it is.
    pub fn append(&mut self, insert_version: Version, payload: Payload)
        requires
            old(self).wf(),
            old(self)@.filled(),
            *old(self) matches VersionIndex::DexaBTree(tree) ==> !version_tree::tree_has(
                tree@,
                insert_version,
            ),
        ensures
            final(self).wf(),
            final(self).kind() == old(self).kind(),
            final(self)@ == (if old(self)@ is Skip && !old(self)@.live() {
                old(self)@
            } else {
                old(self)@.appended(insert_version, payload)
            }),
            *old(self) matches VersionIndex::VWEAVER(before) ==> {
                &&& *final(self) matches VersionIndex::VWEAVER(after)
                &&& after.key() == before.key()
                &&& after.nodes().drop_last() == before.nodes()
                &&& after.nodes().last().k_ridgy is None
            },
            *old(self) matches VersionIndex::DexaBTree(before) ==> {
                &&& *final(self) matches VersionIndex::DexaBTree(after)
                &&& before.levels() <= after.levels() <= before.levels() + 1
            },
    {
        match self {
            VersionIndex::FrugalSkipList(list) => list.append(Some(payload), insert_version),
            VersionIndex::VANILLA(list) => list.append(insert_version, payload),
            VersionIndex::SkipList(list) => {
                proof {
                    skip_list::lemma_push_keeps_last(
                        skip_list::skip_contents(*list),
                        insert_version,
                        payload,
                    );
                }
                if skip_is_live(list) {
                    let _ = skip_push(list, insert_version, payload);
                }
            },
            VersionIndex::DexaBTree(tree) => {
                let _ = tree_push(tree, insert_version, payload);
            },
            VersionIndex::VWEAVER(weaver) => {
                let _ = weaver.append(Some(payload), insert_version);
            },
        }
    }

    /// Ends the newest version at `del_version`, if that takes effect.
    pub fn delete(&mut self, del_version: Version)
        requires
            old(self).wf(),
        ensures
            final(self).wf(),
            final(self).kind() == old(self).kind(),
            final(self)@ == old(self)@.deleted(del_version),
            *old(self) matches VersionIndex::VWEAVER(before) ==> {
                &&& *final(self) matches VersionIndex::VWEAVER(after)
                &&& after.key() == before.key()
                &&& old(self)@.live() ==> after.nodes().drop_last() == before.nodes()
                    && after.nodes().last().k_ridgy is None
                &&& !old(self)@.live() ==> after.nodes() == before.nodes()
            },
            *old(self) matches VersionIndex::DexaBTree(before) ==> {
                &&& *final(self) matches VersionIndex::DexaBTree(after)
                &&& after.levels() == before.levels()
            },
    {
        match self {
            VersionIndex::FrugalSkipList(list) => list.delete(del_version),
            VersionIndex::VANILLA(list) => list.delete(del_version),
            VersionIndex::SkipList(list) => {
                proof {
                    skip_list::lemma_delete_keeps_last(
                        skip_list::skip_contents(*list),
                        del_version,
                    );
                }
                let _ = skip_delete(list, del_version);
            },
            VersionIndex::DexaBTree(tree) => {
                let _ = tree_delete(tree, del_version);
            },
            VersionIndex::VWEAVER(weaver) => {
                let _ = weaver.delete(del_version);
            },
        }
    }

    /// Whether there is a newest version and it is live.
    pub fn is_live(&self) -> (r: bool)
        requires
            self.wf(),
        ensures
            r == self@.live(),
    {
        match self {
            VersionIndex::VANILLA(list) => list.is_live(),
            VersionIndex::SkipList(list) => skip_is_live(list),
            VersionIndex::FrugalSkipList(list) => list.is_live(),
            VersionIndex::DexaBTree(tree) => tree_is_live(tree),
            VersionIndex::VWEAVER(weaver) => weaver.is_live(),
        }
    }

    /// The payload of the newest version.
    pub fn newest_payload(&self) -> (payload: Payload)
        requires
            self.wf(),
            self@.filled(),
            self@ is Nodes ==> self@.live(),
        ensures
            payload == self@.newest(),
    {
        match self {
            VersionIndex::FrugalSkipList(list) => list.newest_payload(),
            VersionIndex::VANILLA(list) => list.newest_payload(),
            VersionIndex::SkipList(list) => skip_newest_payload(list),
            VersionIndex::DexaBTree(tree) => tree_newest_payload(tree),
            VersionIndex::VWEAVER(weaver) => weaver.newest_payload(),
        }
    }

    /// An index of its own with the same history. The copy of a list of entries is made by
    /// appending them again, so each ends where the next begins and the newest is live.
    pub fn clone(&self) -> (index: Self)
        requires
            self.wf(),
        ensures
            index.wf(),
            index.kind() == self.kind(),
            index@ == (match self {
                VersionIndex::VANILLA(list) => IndexView::Entries(vanilla::replayed(list@)),
                _ => self@,
            }),
            self matches VersionIndex::VWEAVER(weaver) ==> {
                &&& index matches VersionIndex::VWEAVER(copy)
                &&& v_weaver::same_links(weaver.nodes(), copy.nodes())
            },
            self matches VersionIndex::DexaBTree(tree) ==> {
                &&& index matches VersionIndex::DexaBTree(copy)
                &&& version_tree::flat(copy@, copy.levels())
            },
    {
        match self {
            VersionIndex::VANILLA(list) => {
                let copy = list.clone();
                proof {
                    let s = choose|s: Seq<VersionedEntry<Payload>>| #[trigger]
                        versioned_entry::copies(list@, s) && copy@
                            == vanilla::replayed(s);
                    assert(s =~= list@);
                    vanilla::lemma_replayed_len(s);
                }
                VersionIndex::VANILLA(copy)
            },
            VersionIndex::SkipList(list) => VersionIndex::SkipList(skip_clone(list)),
            VersionIndex::FrugalSkipList(list) => {
                let copy = list.clone();
                assert(copy@ =~= list@);
                VersionIndex::FrugalSkipList(copy)
            },
            VersionIndex::DexaBTree(tree) => VersionIndex::DexaBTree(tree_clone(tree)),
            VersionIndex::VWEAVER(weaver) => {
                let copy = weaver.clone();
                assert(copy@ =~= weaver@);
                VersionIndex::VWEAVER(copy)
            },
        }
    }
}

} // verus!
