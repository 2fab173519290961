use mvbtree::mvb_version_index::version_index::VersionIndex as MvbIndex;
use mvbtree::record_model::record_point::RecordPoint;
use mvbtree::record_model::v_record_point::{RecordInfo, VersionIndexType, VersionedRecordPoint};
use mvbtree::record_model::version_index::VersionIndex as RecordIndex;
use mvbtree::record_model::version_info::DeletedVersionInfo;
use mvbtree::tree::record_tree::RecordTree;
use mvbtree::utils::shadow_vec::VersionIndex as ShadowIndex;
use mvbtree::version_index::version_index::VersionIndex;
use mvbtree::version_index::version_tree::{
    new_btree, tree_clone, tree_delete, tree_find, tree_is_live, tree_len, tree_newest_payload,
    tree_push,
};

const KINDS: [VersionIndexType; 5] = [
    VersionIndexType::VWEAVER,
    VersionIndexType::VANILLA,
    VersionIndexType::SkipList,
    VersionIndexType::SkipListSynced,
    VersionIndexType::FrugalSkipList,
];

fn pair(found: Option<RecordPoint<u64, u64>>) -> Option<(u64, u64)> {
    found.map(|r| (r.key, r.payload))
}

#[test]
fn every_kind_reads_after_append_and_delete() {
    for kind in KINDS {
        let mut index = VersionIndex::new(1, kind, 10, 2);
        assert!(index.is_live());
        assert_eq!(index.append(4, 20), 10);
        assert_eq!(index.newest_payload(), 20);
        assert_eq!(pair(index.find(1)), None);
        assert_eq!(pair(index.find(3)), Some((2, 10)));
        assert_eq!(pair(index.find(4)), Some((4, 20)));
        assert_eq!(index.delete(6), Some(20));
        assert!(!index.is_live());
        assert_eq!(index.delete(7), None);
        assert_eq!(pair(index.find(5)), Some((4, 20)));
        assert_eq!(pair(index.find(6)), None);
        index.push(8, 30);
        assert_eq!(pair(index.find(7)), None);
        assert_eq!(pair(index.find(9)), Some((8, 30)));
        assert_eq!(pair(index.find(3)), Some((2, 10)));
        let copy = index.clone();
        assert_eq!(pair(copy.find(5)), Some((4, 20)));
        assert_eq!(pair(copy.find(6)), None);
        assert_eq!(copy.newest_payload(), 30);
    }
}

#[test]
fn lengths_are_what_each_kind_calls_its_length() {
    let mut lengths = vec![];
    for kind in KINDS {
        let mut index = VersionIndex::new(1, kind, 10, 2);
        let _ = index.delete(3);
        index.push(5, 20);
        lengths.push(index.len());
    }
    assert_eq!(lengths, vec![2, 2, 2, 2, 2]);
    assert_eq!(VersionIndex::new(1, VersionIndexType::BTree, 10, 2).len(), 1);
}

#[test]
fn a_version_tree_loses_its_first_version() {
    let mut index = VersionIndex::new(1, VersionIndexType::BTree, 10, 2);
    assert!(!index.is_live());
    assert_eq!(pair(index.find(2)), None);
    assert_eq!(index.delete(3), None);
    assert!(!index.clone().is_live());
}

#[test]
fn version_trees_grow_and_shrink_their_height_by_powers() {
    let mut tree: RecordTree<56, 112, RecordPoint<u64, RecordInfo<u64>>> = new_btree();
    for v in 1..=1000u64 {
        tree.insert(RecordPoint::new(v, RecordInfo::new(v * 2)));
    }
    assert_eq!(tree.height(), 2);
    assert_eq!(tree_len(&tree), 3);
    assert_eq!(pair(tree_find(&tree, 500)), Some((500, 1000)));
    assert!(tree_find(&tree, 1001).is_none());
    assert!(tree_is_live(&tree));
    assert_eq!(tree_newest_payload(&tree), 2000);
    assert_eq!(tree_push(&mut tree, 1005, 7), 2000);
    assert_eq!(tree_delete(&mut tree, 1005), None);
    assert_eq!(tree_delete(&mut tree, 1007), Some(7));
    assert!(!tree_is_live(&tree));
    assert_eq!(pair(tree_find(&tree, 1005)), Some((1005, 7)));
    let copy = tree_clone(&tree);
    assert_eq!(pair(tree_find(&copy, 1)), Some((1, 2)));
    assert_eq!(pair(tree_find(&copy, 1005)), Some((1005, 7)));
    assert!(!tree_is_live(&copy));
}

#[test]
fn mvb_index_appends_to_deleted_skip_lists_in_vain() {
    let mut index = MvbIndex::new(1, VersionIndexType::SkipList, 10, 2);
    index.delete(4);
    index.append(6, 20);
    assert_eq!(index.len(), 1);
    assert_eq!(pair(index.find(7)), None);
    index.push(8, 30);
    assert_eq!(pair(index.find(8)), Some((8, 30)));
}

#[test]
fn mvb_index_reads_after_append_and_delete() {
    for kind in [
        VersionIndexType::VWEAVER,
        VersionIndexType::VANILLA,
        VersionIndexType::SkipList,
        VersionIndexType::FrugalSkipList,
    ] {
        let mut index = MvbIndex::new(1, kind, 10, 2);
        index.append(4, 20);
        assert_eq!(pair(index.find(3)), Some((2, 10)));
        assert_eq!(pair(index.find(5)), Some((4, 20)));
        assert_eq!(index.newest_payload(), 20);
        assert_eq!(pair(index.clone().find(5)), Some((4, 20)));
        index.delete(6);
        assert!(!index.is_live());
        assert_eq!(pair(index.find(6)), None);
        assert_eq!(pair(index.find(5)), Some((4, 20)));
        let woven = index.find_weaver_node_or_tombstone(9);
        assert_eq!(woven.is_some(), kind == VersionIndexType::VWEAVER);
        assert_eq!(index.find_weaver_node(9), None);
    }
}

#[test]
fn record_index_reads_after_append_and_delete() {
    for kind in [
        VersionIndexType::VANILLA,
        VersionIndexType::SkipList,
        VersionIndexType::SkipListSynced,
    ] {
        let mut index = RecordIndex::new(kind, 10, 2);
        assert_eq!(index.append(4, 20), 10);
        assert_eq!(index.delete(6), Some(20));
        assert_eq!(index.len(), 2);
        assert_eq!(pair(index.find(5)), Some((4, 20)));
        assert_eq!(pair(index.find(6)), None);
        assert_eq!(pair(index.clone().find(2)), Some((2, 10)));
    }
    assert!(!RecordIndex::new(VersionIndexType::BTree, 10, 2).is_live());
}

#[test]
fn shadow_index_finds_skip_list_versions_by_their_own_number() {
    let mut index = ShadowIndex::new(VersionIndexType::SkipList, 10, 2);
    assert_eq!(index.append(4, 20), 10);
    assert_eq!(pair(index.find(3)), None);
    assert_eq!(pair(index.find(2)), Some((2, 10)));
    let mut list = ShadowIndex::new(VersionIndexType::VANILLA, 10, 2);
    assert_eq!(pair(list.find(3)), Some((2, 10)));
    assert_eq!(list.delete(9), Some(10));
    assert_eq!(list.delete(5), Some(10));
    assert_eq!(list.delete(7), None);
    assert_eq!(pair(list.find(5)), None);
    assert_eq!(list.newest_payload(), 10);
    assert_eq!(list.clone().len(), 1);
    assert!(list.clone().is_live());
}

#[test]
fn texts_of_records() {
    assert_eq!(RecordPoint::new(3u64, 14u64).to_string(), "RecordPoint(Key: 3, Payload: 14)");
    assert_eq!(RecordPoint::<u64, u64>::default().to_string(), "RecordPoint(Key: 0, Payload: 0)");
    assert_eq!(RecordInfo::new(5u64).to_string(), "Deleted version: *, Payload: 5");
    let ended = RecordInfo { del_version: DeletedVersionInfo::at(12), payload: 5u64 };
    assert_eq!(ended.to_string(), "Deleted version: 12, Payload: 5");
    let record = VersionedRecordPoint::new(9, 1, 2, VersionIndexType::VANILLA);
    assert_eq!(record.to_string(), "RecordPoint(Key: 9, VersionList-Len: 1)");
    assert_eq!(record.key(), 9);
    assert_eq!(*record.key_ref(), 9);
    assert_eq!(record.clone().version_index().len(), 1);
    assert_eq!(VersionedRecordPoint::default().to_string(), "RecordPoint(Key: 0, VersionList-Len: 1)");
    let names: Vec<String> = KINDS.iter().map(|k| k.to_string()).collect();
    assert_eq!(names, vec!["vWeaver", "VANILLA", "SkipList", "SkipListSynced", "FrugalSkipList"]);
    assert!(VersionIndexType::SkipList.is_skiplist());
    assert!(VersionIndexType::SkipListSynced.is_skiplist_synced());
    assert!(VersionIndexType::VWEAVER.is_v_weaver());
    assert!(!VersionIndexType::BTree.is_v_weaver());
    let mut record = record;
    let _ = record.version_index_mut().append(4, 3);
    assert_eq!(record.version_index().newest_payload(), 3);
}
