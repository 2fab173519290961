use mvbtree::mvb_version_index::frugal::AtomicFrugalList;
use mvbtree::mvb_version_index::vanilla::AtomicVersionList as ReplayList;
use mvbtree::record_model::version_index::AtomicVersionList as PlainList;
use mvbtree::utils::shadow_vec::{ShadowVec, VersionList};
use mvbtree::version_index::skip_list::{
    skip_clone, skip_delete, skip_find, skip_get, skip_is_live, skip_len, skip_new,
    skip_newest_payload, skip_push,
};
use mvbtree::version_index::v_weaver::{AtomicVWeaverList, VWeaverNodeSt};
use mvbtree::version_index::vanilla::AtomicVersionList;
use mvbtree::version_index::version_tree::{
    new_btree, tree_clone, tree_delete, tree_find, tree_is_live, tree_len,
};

#[test]
fn atomic_list_reads_what_was_appended() {
    let mut list: AtomicVersionList<u64> = AtomicVersionList::new(10, 2, None);
    assert_eq!(list.append(5, 20), 10);
    assert_eq!(list.len(), 2);
    assert!(list.find(1).is_none());
    assert_eq!(list.find(2).unwrap().payload, 10);
    assert_eq!(list.find(4).unwrap().payload, 10);
    assert_eq!(list.find(5).unwrap().payload, 20);
    assert_eq!(list.find(100).unwrap().insert_version, 5);
    assert_eq!(list.newest_payload(), 20);
}

#[test]
fn atomic_list_forgets_what_was_deleted() {
    let mut list: AtomicVersionList<u64> = AtomicVersionList::new(10, 2, None);
    assert_eq!(list.delete(2), None);
    assert_eq!(list.delete(7), Some(10));
    assert!(!list.is_live());
    assert_eq!(list.delete(9), None);
    assert_eq!(list.find(6).unwrap().payload, 10);
    assert!(list.find(7).is_none());
    list.push(9, 30);
    assert!(list.is_live());
    assert!(list.find(8).is_none());
    assert_eq!(list.find(9).unwrap().payload, 30);
}

#[test]
fn atomic_list_pushes_without_ending_the_entry_below() {
    let mut list: AtomicVersionList<u64> = AtomicVersionList::new(10, 2, None);
    list.push(5, 20);
    let mut iter = list.iter();
    let newest = iter.next().unwrap();
    assert_eq!((newest.insert_version, newest.del_version), (5, u64::MAX));
    let oldest = iter.next().unwrap();
    assert_eq!((oldest.insert_version, oldest.del_version), (2, u64::MAX));
    assert!(iter.next().is_none());
}

#[test]
fn atomic_list_copies_are_independent() {
    let mut list: AtomicVersionList<u64> = AtomicVersionList::new(10, 2, Some(4));
    let copy = list.clone();
    list.push(6, 11);
    assert_eq!(copy.len(), 1);
    assert_eq!(copy.find(3).unwrap().del_version, 4);
    assert_eq!(list.len(), 2);
    let dead = AtomicVersionList::<u64>::default();
    assert_eq!(dead.len(), 1);
    assert!(dead.find(0).is_none());
    assert!(!dead.is_live());
}

#[test]
fn plain_list_may_be_empty() {
    let list: PlainList<u64> = PlainList::default();
    assert_eq!(list.len(), 0);
    assert!(list.find(3).is_none());
    let mut list: PlainList<u64> = PlainList::new(1, 1, None);
    assert_eq!(list.append(2, 2), 1);
    assert_eq!(list.delete(4), Some(2));
    assert_eq!(list.clone().find(3).unwrap().payload, 2);
    assert!(list.clone().find(4).is_none());
}

#[test]
fn replayed_copies_end_entries_anew() {
    let mut list: ReplayList<u64> = ReplayList::new(1, 1, None);
    list.append(3, 2);
    list.delete(5);
    assert!(!list.is_live());
    let copy = list.clone();
    assert!(copy.is_live());
    assert_eq!(copy.find(9).unwrap().payload, 2);
    assert_eq!(copy.find(2).unwrap().payload, 1);
    list.push(7, 4);
    assert_eq!(list.newest_payload(), 4);
}

#[test]
fn turned_over_copies_begin_with_the_oldest_entry() {
    let mut list: VersionList<u64> = VersionList::from(1, 10);
    assert_eq!(list.append(3, 20), 10);
    let copy = list.clone();
    let mut iter = copy.iter();
    let head = iter.next().unwrap();
    assert_eq!((head.insert_version, head.payload, head.del_version), (1, 10, u64::MAX));
    let next = iter.next().unwrap();
    assert_eq!((next.insert_version, next.payload, next.del_version), (3, 20, 1));
    assert_eq!(list.delete(9), Some(20));
    assert_eq!(list.delete(6), Some(20));
    assert_eq!(list.delete(6), None);
    assert_eq!(list.find(5).unwrap().payload, 20);
    assert!(list.find(6).is_none());
}

#[test]
fn shadow_vec_keeps_to_its_capacity() {
    let mut v: ShadowVec<u64> = ShadowVec::with_room_for(4);
    v.push(1);
    v.push(3);
    v.insert(1, 2);
    assert_eq!(v.as_slice(), &[1, 2, 3]);
    assert!(v.has_room());
    v.extend(vec![4]);
    assert!(!v.has_room());
    assert_eq!(v.remove(0), 1);
    assert_eq!(v.pop(), 4);
    *v.get_unchecked_mut(0) = 7;
    assert_eq!(*v.get_unchecked(0), 7);
    let tail = v.split_off(1);
    assert_eq!(tail.as_slice(), &[3]);
    v.extend_from_slice(&[8, 9]);
    assert_eq!(v.as_slice(), &[7, 8, 9]);
    v.truncate(2);
    assert_eq!(v.len(), 2);
    v.clear();
    assert_eq!(v.len(), 0);
}

#[test]
fn weaver_list_finds_every_snapshot_whatever_the_coin_says() {
    for _ in 0..20 {
        let mut list: AtomicVWeaverList<u64, u64> = AtomicVWeaverList::new(7, 0, 1);
        for v in 2..200u64 {
            assert_eq!(list.append(Some(v * 10), v * 3), Some(if v == 2 { 0 } else { (v - 1) * 10 }));
        }
        for v in 2..199u64 {
            let at = list.find(v * 3 + 1).unwrap();
            assert_eq!(list.node(at).payload, Some(v * 10));
            assert_eq!(list.node(at).key, 7);
        }
        assert!(list.find(0).is_none());
        assert_eq!(list.node(list.find(5).unwrap()).payload, Some(0));
        assert_eq!(list.len(), 199);
    }
}

#[test]
fn weaver_list_keeps_tombstones() {
    let mut list: AtomicVWeaverList<u64, u64> = AtomicVWeaverList::new(7, 5, 1);
    assert_eq!(list.delete(4), Some(5));
    assert_eq!(list.delete(6), None);
    assert!(!list.is_live());
    assert!(list.find(4).is_none());
    let at = list.find_any(9).unwrap();
    assert!(list.node(at).is_deleted());
    assert_eq!(list.node(list.find(3).unwrap()).payload, Some(5));
    assert_eq!(list.len(), 1);
    list.push(Some(8), 10);
    assert_eq!(list.newest_payload(), 8);
    assert_eq!(list.len(), 2);
    let copy = list.clone();
    assert_eq!(VWeaverNodeSt::find(&copy, copy.head(), 12, false), Some(2));
    assert_eq!(VWeaverNodeSt::find(&copy, 1, 12, true), Some(1));
    let mut iter = list.iter();
    assert_eq!(iter.next(), Some(2));
    assert_eq!(iter.next(), Some(0));
    assert_eq!(iter.next(), None);
}

#[test]
fn frugal_list_finds_every_snapshot_whatever_the_coin_says() {
    for _ in 0..20 {
        let mut list: AtomicFrugalList<u64> = AtomicFrugalList::new(0, 1);
        for v in 2..200u64 {
            list.append(Some(v), v * 2);
        }
        list.delete(500);
        for v in 2..200u64 {
            assert_eq!(list.find(v * 2).unwrap().payload, Some(v));
        }
        assert!(list.find(0).is_none());
        assert!(list.find(501).is_none());
        assert!(list.find_any(501).unwrap().is_deleted());
        assert_eq!(list.len(), 199);
        let copy = list.clone();
        assert_eq!(copy.find(77).unwrap().payload, Some(38));
        assert_eq!(copy.iter().next().unwrap(), (198, 398));
    }
    assert_eq!(AtomicFrugalList::<u64>::default().len(), 0);
}

#[test]
fn skip_list_reads_what_was_pushed() {
    let mut list = skip_new(3, 30);
    assert_eq!(skip_push(&mut list, 6, 60), 30);
    assert_eq!(skip_len(&list), 2);
    assert!(skip_find(&list, 2).is_none());
    assert_eq!(skip_find(&list, 5).unwrap().payload, 30);
    let found = skip_find(&list, 9).unwrap();
    assert_eq!((found.key, found.payload), (6, 60));
    assert!(skip_get(&list, 5).is_none());
    assert_eq!(skip_get(&list, 3).unwrap().payload, 30);
    assert_eq!(skip_newest_payload(&list), 60);
    let copy = skip_clone(&list);
    assert_eq!(skip_delete(&mut list, 6), None);
    assert_eq!(skip_delete(&mut list, 8), Some(60));
    assert!(!skip_is_live(&list));
    assert!(skip_find(&list, 8).is_none());
    assert_eq!(skip_find(&list, 7).unwrap().payload, 60);
    assert!(skip_is_live(&copy));
    assert_eq!(skip_len(&copy), 2);
}

#[test]
fn version_tree_starts_empty() {
    let mut tree = new_btree();
    assert!(!tree_is_live(&tree));
    assert!(tree_find(&tree, 1).is_none());
    assert_eq!(tree_delete(&mut tree, 9), None);
    assert_eq!(tree_len(&tree), 1);
    assert_eq!(tree_len(&tree_clone(&tree)), 1);
}
