//! Records with their version index.

use vstd::prelude::*;
use vstd::string::*;
use crate::page_model::leaf_page::Keyed;
use crate::record_model::version_info::DeletedVersionInfo;
use crate::record_model::versioned_entry::VersionedEntry;
use crate::record_model::{Key, Payload, Version};
use crate::utils::text;
use crate::version_index::index_view::IndexView;
use crate::version_index::v_weaver;
use crate::version_index::vanilla::AtomicVersionList;
use crate::version_index::version_index::VersionIndex;
use crate::version_index::version_tree;

verus! {

/// The structure that keeps the versions of a record.
#[derive(Clone, Copy, Debug, PartialEq, Eq, Structural)]
pub enum VersionIndexType {
    VWEAVER,
    VANILLA,
    SkipList,
    SkipListSynced,
    FrugalSkipList,
    BTree,
}

impl VersionIndexType {
    /// Whether this is the skip list without a lock of its own.
    pub fn is_skiplist(&self) -> (r: bool)
        ensures
            r == (*self is SkipList),
    {
        match self {
            VersionIndexType::SkipList => true,
            _ => false,
        }
    }

    /// Whether this is the skip list behind a lock.
    pub fn is_skiplist_synced(&self) -> (r: bool)
        ensures
            r == (*self is SkipListSynced),
    {
        match self {
            VersionIndexType::SkipListSynced => true,
            _ => false,
        }
    }

    /// Whether this is the list whose versions lead to the neighbouring key.
    pub fn is_v_weaver(&self) -> (r: bool)
        ensures
            r == (*self is VWEAVER),
    {
        match self {
            VersionIndexType::VWEAVER => true,
            _ => false,
        }
    }

    /// The name of the structure.
    pub open spec fn name(self) -> Seq<char> {
        match self {
            VersionIndexType::VANILLA => "VANILLA"@,
            VersionIndexType::SkipList => "SkipList"@,
            VersionIndexType::SkipListSynced => "SkipListSynced"@,
            VersionIndexType::FrugalSkipList => "FrugalSkipList"@,
            VersionIndexType::BTree => "BTree"@,
            VersionIndexType::VWEAVER => "vWeaver"@,
        }
    }

    /// Writes the name of the structure.
    pub fn to_string(&self) -> (s: String)
        ensures
            s@ == self.name(),
    {
        match self {
            VersionIndexType::VANILLA => String::from_str("VANILLA"),
            VersionIndexType::SkipList => String::from_str("SkipList"),
            VersionIndexType::SkipListSynced => String::from_str("SkipListSynced"),
            VersionIndexType::FrugalSkipList => String::from_str("FrugalSkipList"),
            VersionIndexType::BTree => String::from_str("BTree"),
            VersionIndexType::VWEAVER => String::from_str("vWeaver"),
        }
    }
}

/// A key with all versions of its record.
pub struct VersionedRecordPoint {
    pub key: Key,
    pub version_index: VersionIndex,
}

impl Keyed for VersionedRecordPoint {
    open spec fn key_of(&self) -> Key {
        self.key
    }

    fn record_key(&self) -> (key: Key) {
        self.key
    }
}

impl VersionedRecordPoint {
    /// A record that was just inserted at `version`.
    pub fn new(key: Key, version: Version, payload: Payload, kind: VersionIndexType) -> (record:
        Self)
        ensures
            record.key == key,
            record.version_index.wf(),
            record.version_index.kind() == kind,
            record.version_index@ == VersionIndex::initial(kind, payload, version),
            record.version_index matches VersionIndex::VWEAVER(weaver) ==> weaver.key() == key
                && weaver.nodes()[0].k_ridgy is None,
    {
        VersionedRecordPoint { key, version_index: VersionIndex::new(key, kind, payload, version) }
    }

    /// A record of the smallest key that no reader sees.
    pub fn default() -> (record: Self)
        ensures
            record.key == 0,
            record.version_index.wf(),
            record.version_index@ == IndexView::Entries(
                seq![VersionedEntry { payload: 0u64, insert_version: 0, del_version: 0 }],
            ),
    {
        VersionedRecordPoint {
            key: 0,
            version_index: VersionIndex::VANILLA(AtomicVersionList::default()),
        }
    }

    /// The key.
    pub fn key(&self) -> (key: Key)
        ensures
            key == self.key,
    {
        self.key
    }

    /// The key.
    pub fn key_ref(&self) -> (key: &Key)
        ensures
            *key == self.key,
    {
        &self.key
    }

    /// The versions.
    pub fn version_index(&self) -> (index: &VersionIndex)
        ensures
            *index == self.version_index,
    {
        &self.version_index
    }

    /// The versions, to be changed in place.
    pub fn version_index_mut(&mut self) -> (index: &mut VersionIndex)
        ensures
            *index == old(self).version_index,
            final(self).version_index == *final(index),
            final(self).key == old(self).key,
    {
        &mut self.version_index
    }

    /// A record of its own with the same key and history.
    pub fn clone(&self) -> (record: Self)
        requires
            self.version_index.wf(),
        ensures
            record.key == self.key,
            record.version_index.wf(),
            record.version_index@ == self.version_index@,
            record.version_index.kind() == (if self.version_index.kind() is SkipListSynced {
                VersionIndexType::SkipList
            } else {
                self.version_index.kind()
            }),
            self.version_index matches VersionIndex::VWEAVER(weaver) ==> {
                &&& record.version_index matches VersionIndex::VWEAVER(copy)
                &&& v_weaver::same_links(weaver.nodes(), copy.nodes())
            },
            self.version_index matches VersionIndex::DexaBTree(tree) ==> {
                &&& record.version_index matches VersionIndex::DexaBTree(copy)
                &&& version_tree::flat(copy@, copy.levels())
            },
    {
        VersionedRecordPoint { key: self.key, version_index: self.version_index.clone() }
    }

    /// The key and the length of the version index as text.
    pub open spec fn text(self) -> Seq<char> {
        "RecordPoint(Key: "@ + text::decimal(self.key as nat) + ", VersionList-Len: "@
            + text::decimal(self.version_index.size()) + ")"@
    }

    /// Writes the key and the length of the version index.
    pub fn to_string(&self) -> (s: String)
        requires
            self.version_index.wf(),
            self.version_index matches VersionIndex::DexaBTree(tree) ==> tree.levels()
                < usize::BITS,
        ensures
            s@ == self.text(),
    {
        let mut s = String::from_str("RecordPoint(Key: ");
        s.append(text::number(self.key).as_str());
        s.append(", VersionList-Len: ");
        let len: u64 = self.version_index.len() as u64;
        s.append(text::number(len).as_str());
        s.append(")");
        s
    }
}

/// A payload with the end of its life.
#[derive(Clone, Copy, Debug, Default)]
pub struct RecordInfo<Payload> {
    pub del_version: DeletedVersionInfo,
    pub payload: Payload,
}

impl<Payload> RecordInfo<Payload> {
    /// The payload has not been deleted.
    pub open spec fn live(self) -> bool {
        self.del_version.version is None
    }

    /// The payload, deleted at `version`.
    pub open spec fn ended(self, version: Version) -> Self {
        RecordInfo { del_version: DeletedVersionInfo { version: Some(version) }, ..self }
    }

    /// A payload that has not been deleted.
    pub open spec fn fresh(payload: Payload) -> Self {
        RecordInfo { del_version: DeletedVersionInfo { version: None }, payload }
    }

    /// A payload that has not been deleted.
    pub fn new(payload: Payload) -> (info: RecordInfo<Payload>)
        ensures
            info == Self::fresh(payload),
    {
        RecordInfo { del_version: DeletedVersionInfo::new_null(), payload }
    }
}

impl RecordInfo<u64> {
    /// The payload and the end of its life as text. A star stands for no end.
    pub open spec fn text(self) -> Seq<char> {
        "Deleted version: "@ + match self.del_version.version {
            Some(v) => text::decimal(v as nat),
            None => "*"@,
        } + ", Payload: "@ + text::decimal(self.payload as nat)
    }

    /// Writes the payload and the end of its life.
    pub fn to_string(&self) -> (s: String)
        ensures
            s@ == self.text(),
    {
        let mut s = String::from_str("Deleted version: ");
        match self.del_version.get() {
            Some(v) => s.append(text::number(v).as_str()),
            None => s.append("*"),
        }
        s.append(", Payload: ");
        s.append(text::number(self.payload).as_str());
        s
    }
}

} // verus!
