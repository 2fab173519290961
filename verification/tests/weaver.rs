use mvbtree::crud_model::crud_api::CRUDDispatcher;
use mvbtree::crud_model::crud_operation::CRUDOperation;
use mvbtree::locking::locking_strategy::LockingStrategy;
use mvbtree::record_model::v_record_point::VersionIndexType;
use mvbtree::tree::bplus_tree::BPlusTree;
use mvbtree::utils::interval::Interval;
use mvbtree::version_index::v_weaver::{KeyRidge, VWeaverKeyRidgyIterator};

type WovenTree = BPlusTree<4, 3>;

fn woven(n: u64) -> WovenTree {
    let mut tree = WovenTree::new(LockingStrategy::OLC, VersionIndexType::VWEAVER);
    for k in 0..n {
        let _ = tree.dispatch(CRUDOperation::Insert(k * 10, k));
    }
    tree
}

fn scan(tree: &WovenTree, lower: u64, upper: u64, version: u64) -> Vec<(u64, u64)> {
    let (_, records) = tree.weaver_scan_dispatch(Interval::new(lower, upper), version);
    records.iter().map(|r| (r.key, r.payload)).collect()
}

#[test]
fn scans_without_links_go_from_leaf_to_leaf() {
    let tree = woven(20);
    let now = tree.committed_version();
    let all = scan(&tree, 0, 1000, now);
    assert_eq!(all.len(), 20);
    assert_eq!(all[7], (70, 7));
    assert_eq!(scan(&tree, 35, 65, now), vec![(40, 4), (50, 5), (60, 6)]);
    assert_eq!(scan(&tree, 0, 1000, 1), vec![]);
    assert_eq!(scan(&tree, 0, 1000, 4), vec![(0, 0), (10, 1), (20, 2)]);
}

#[test]
fn a_scan_stops_before_an_upper_end_that_it_comes_to_last() {
    let tree = woven(20);
    let now = tree.committed_version();
    assert_eq!(scan(&tree, 69, 70, now), vec![(70, 7)]);
    let mut tree = WovenTree::new(LockingStrategy::OLC, VersionIndexType::VWEAVER);
    for k in 0..3u64 {
        let _ = tree.dispatch(CRUDOperation::Insert(k, k));
    }
    let now = tree.committed_version();
    assert_eq!(scan(&tree, 0, 2, now), vec![(0, 0), (1, 1)]);
    assert_eq!(scan(&tree, 2, 2, now), vec![(2, 2)]);
}

#[test]
fn links_carry_old_snapshots_across_keys() {
    let mut tree = woven(9);
    let before = tree.committed_version();
    for k in 0..9u64 {
        let _ = tree.dispatch(CRUDOperation::Update(k * 10, 100 + k));
        let version = tree.committed_version();
        let _ = tree.weaver_callback(k * 10, version);
    }
    let now = tree.committed_version();
    let old: Vec<(u64, u64)> = (0..9).map(|k| (k * 10, k)).collect();
    let new: Vec<(u64, u64)> = (0..9).map(|k| (k * 10, 100 + k)).collect();
    assert_eq!(scan(&tree, 0, 500, before), old);
    assert_eq!(scan(&tree, 0, 500, now), new);
    let (linked, _) = tree.weaver_scan_dispatch(Interval::new(0, 500), before);
    let (plain, _) = tree.weaver_scan_dispatch(Interval::new(0, 500), now);
    assert!(linked < plain);
}

#[test]
fn a_callback_counts_pages_only_beyond_the_leaf() {
    let mut tree = WovenTree::new(LockingStrategy::OLC, VersionIndexType::VWEAVER);
    for k in 1..=4u64 {
        let _ = tree.dispatch(CRUDOperation::Insert(k, k));
    }
    assert_eq!(tree.height(), 2);
    let _ = tree.dispatch(CRUDOperation::Update(2, 20));
    let version = tree.committed_version();
    let far = tree.weaver_callback(2, version) + tree.weaver_callback(2, version);
    let _ = tree.dispatch(CRUDOperation::Update(3, 30));
    let version = tree.committed_version();
    let near = tree.weaver_callback(3, version) + tree.weaver_callback(3, version);
    let mut both = vec![near, far];
    both.sort();
    assert!(both[0] == 0 && (both[1] == 2 || both[1] == 0));
    assert_eq!(tree.weaver_callback(1, version), 0);
}

#[test]
fn a_link_to_a_tombstone_passes_over_older_versions() {
    let mut tree = WovenTree::new(LockingStrategy::OLC, VersionIndexType::VWEAVER);
    let _ = tree.dispatch(CRUDOperation::Insert(1, 11));
    let _ = tree.dispatch(CRUDOperation::Insert(2, 22));
    let before = tree.committed_version();
    let _ = tree.dispatch(CRUDOperation::Delete(2));
    let _ = tree.dispatch(CRUDOperation::Update(1, 12));
    let now = tree.committed_version();
    assert_eq!(scan(&tree, 0, 9, before), vec![(1, 11), (2, 22)]);
    let _ = tree.weaver_callback(1, now);
    let shown = scan(&tree, 0, 9, before);
    assert!(shown.iter().all(|r| [(1, 11), (2, 22)].contains(r)));
    assert_eq!(scan(&tree, 0, 9, now), vec![(1, 12)]);
}

fn walk(tree: &WovenTree, key: u64) -> Vec<u64> {
    let mut iter = VWeaverKeyRidgyIterator::from(KeyRidge { key, node: 0 });
    let mut keys = vec![];
    while let Some(at) = iter.next(tree) {
        keys.push(at.key);
    }
    keys
}

#[test]
fn links_lead_to_the_next_key_and_survive_other_transactions() {
    let mut tree = WovenTree::new(LockingStrategy::OLC, VersionIndexType::VWEAVER);
    for k in [10u64, 20, 30] {
        let _ = tree.dispatch(CRUDOperation::Insert(k, k));
    }
    assert_eq!(walk(&tree, 10), vec![10]);
    for k in [10u64, 20] {
        let _ = tree.dispatch(CRUDOperation::Update(k, k + 1));
        let version = tree.committed_version();
        let levels = tree.height();
        let _ = tree.weaver_callback(k, version);
        assert_eq!(tree.height(), levels);
    }
    let linked = walk(&tree, 10);
    assert_eq!(linked, vec![10, 20, 30]);
    let now = tree.committed_version();
    let _ = tree.dispatch(CRUDOperation::Point(10, now));
    let _ = tree.dispatch(CRUDOperation::Update(10, 5));
    let _ = tree.dispatch(CRUDOperation::Delete(20));
    for k in 0..30u64 {
        let _ = tree.dispatch(CRUDOperation::Insert(k, k));
    }
    assert_eq!(walk(&tree, 10), linked);
}
