use mvbtree::crud_model::crud_api::CRUDDispatcher;
use mvbtree::crud_model::crud_operation::CRUDOperation;
use mvbtree::crud_model::crud_operation_result::{CRUDOperationInnerReason, CRUDOperationResult};
use mvbtree::locking::locking_strategy::LockingStrategy;
use mvbtree::page_model::leaf_page::LeafPage;
use mvbtree::record_model::record_point::RecordPoint;
use mvbtree::record_model::v_record_point::VersionIndexType;
use mvbtree::tree::bplus_tree::BPlusTree;
use mvbtree::utils::interval::Interval;

type SmallTree = BPlusTree<4, 3>;

const KINDS: [VersionIndexType; 5] = [
    VersionIndexType::VWEAVER,
    VersionIndexType::VANILLA,
    VersionIndexType::SkipList,
    VersionIndexType::SkipListSynced,
    VersionIndexType::FrugalSkipList,
];

fn run(tree: &mut SmallTree, operation: CRUDOperation) -> String {
    tree.dispatch(operation).1.to_string()
}

fn keys(tree: &mut SmallTree, lower: u64, upper: u64, version: u64) -> Vec<(u64, u64)> {
    match tree.dispatch(CRUDOperation::Range(Interval::new(lower, upper), version)).1 {
        CRUDOperationResult::MatchedRecords(records) => {
            records.iter().map(|r| (r.key, r.payload)).collect()
        }
        _ => panic!("a range query gives records"),
    }
}

#[test]
fn a_transaction_tells_what_it_did() {
    let mut tree = SmallTree::new(LockingStrategy::OLC, VersionIndexType::VANILLA);
    assert_eq!(tree.committed_version(), 1);
    assert_eq!(run(&mut tree, CRUDOperation::Insert(5, 50)), "Inserted(key: 5, version: 2)");
    assert_eq!(run(&mut tree, CRUDOperation::Insert(5, 51)), "Error");
    assert_eq!(tree.committed_version(), 3);
    assert_eq!(
        run(&mut tree, CRUDOperation::Update(5, 52)),
        "Updated(key: 5, payload: 50, version: 4)"
    );
    assert_eq!(run(&mut tree, CRUDOperation::Update(6, 1)), "Error");
    assert_eq!(
        run(&mut tree, CRUDOperation::Point(5, 5)),
        "MatchedRecord(RecordPoint(Key: 5, Payload: 52))"
    );
    assert_eq!(
        run(&mut tree, CRUDOperation::Point(5, 3)),
        "MatchedRecord(RecordPoint(Key: 5, Payload: 50))"
    );
    assert_eq!(run(&mut tree, CRUDOperation::Point(5, 1)), "MatchedRecord(None)");
    assert_eq!(
        run(&mut tree, CRUDOperation::Delete(5)),
        "Deleted(key: 5, payload: 52, version: 6)"
    );
    assert_eq!(run(&mut tree, CRUDOperation::Delete(5)), "Error");
    assert_eq!(run(&mut tree, CRUDOperation::Point(5, 6)), "MatchedRecord(None)");
    assert_eq!(run(&mut tree, CRUDOperation::Insert(5, 53)), "Inserted(key: 5, version: 8)");
    assert_eq!(tree.dispatch(CRUDOperation::Empty).0, 0);
    assert_eq!(run(&mut tree, CRUDOperation::Empty), "Error");
    assert_eq!(tree.committed_version(), 8);
}

#[test]
fn locking_writers_store_updates_one_version_later() {
    let mut tree = SmallTree::new(LockingStrategy::LockCoupling, VersionIndexType::SkipList);
    let _ = run(&mut tree, CRUDOperation::Insert(5, 50));
    assert_eq!(
        run(&mut tree, CRUDOperation::Update(5, 51)),
        "Updated(key: 5, payload: 50, version: 3)"
    );
    assert_eq!(tree.committed_version(), 4);
    assert_eq!(
        run(&mut tree, CRUDOperation::Point(5, 3)),
        "MatchedRecord(RecordPoint(Key: 5, Payload: 50))"
    );
    assert_eq!(
        run(&mut tree, CRUDOperation::Point(5, 4)),
        "MatchedRecord(RecordPoint(Key: 5, Payload: 51))"
    );
    assert_eq!(run(&mut tree, CRUDOperation::Update(9, 51)), "Error");
    assert_eq!(tree.committed_version(), 6);
}

#[test]
fn hidden_records_are_no_match_under_any_strategy() {
    for strategy in [LockingStrategy::MonoWriter, LockingStrategy::OLC] {
        let mut tree = SmallTree::new(strategy, VersionIndexType::VANILLA);
        let _ = run(&mut tree, CRUDOperation::Insert(5, 50));
        assert_eq!(run(&mut tree, CRUDOperation::Point(5, 1)), "MatchedRecord(None)");
        assert_eq!(run(&mut tree, CRUDOperation::Point(6, 1)), "MatchedRecord(None)");
        let _ = run(&mut tree, CRUDOperation::Delete(5));
        let now = tree.committed_version();
        assert_eq!(run(&mut tree, CRUDOperation::Point(5, now)), "MatchedRecord(None)");
        assert_eq!(
            run(&mut tree, CRUDOperation::Point(5, now - 1)),
            "MatchedRecord(RecordPoint(Key: 5, Payload: 50))"
        );
    }
}

#[test]
fn snapshots_last_in_every_kind_of_tree() {
    for kind in KINDS {
        let mut tree = SmallTree::new(LockingStrategy::OLC, kind);
        for k in 0..60u64 {
            let _ = tree.dispatch(CRUDOperation::Insert((k * 37) % 60, k));
        }
        let before = tree.committed_version();
        let seen = keys(&mut tree, 0, 100, before);
        assert_eq!(seen.len(), 60);
        for k in 0..60u64 {
            let op = if k % 3 == 0 {
                CRUDOperation::Delete(k)
            } else {
                CRUDOperation::Update(k, 1000 + k)
            };
            let _ = tree.dispatch(op);
        }
        let _ = tree.dispatch(CRUDOperation::Insert(77, 7));
        assert_eq!(keys(&mut tree, 0, 100, before), seen);
        let now = tree.committed_version();
        let current = keys(&mut tree, 0, 100, now);
        assert_eq!(current.len(), 41);
        assert_eq!(current[0], (1, 1001));
        assert_eq!(current[40], (77, 7));
        assert_eq!(keys(&mut tree, 10, 12, now), vec![(10, 1010), (11, 1011)]);
        assert_eq!(keys(&mut tree, 12, 10, now), vec![]);
        assert!(tree.height() > 2);
        assert_eq!(tree.height(), tree.measured_height());
    }
}

#[test]
fn both_ends_of_a_tree() {
    for kind in KINDS {
        let mut tree = SmallTree::new(LockingStrategy::OLC, kind);
        assert_eq!(run(&mut tree, CRUDOperation::PeekMin), "MatchedRecord(None)");
        assert_eq!(run(&mut tree, CRUDOperation::PopMax), "Error");
        assert_eq!(tree.committed_version(), 1);
        for k in [5u64, 1, 9, 3, 7, 2, 8] {
            let _ = tree.dispatch(CRUDOperation::Insert(k, k * 10));
        }
        assert_eq!(
            run(&mut tree, CRUDOperation::PeekMin),
            "MatchedRecord(RecordPoint(Key: 1, Payload: 10))"
        );
        assert_eq!(
            run(&mut tree, CRUDOperation::PeekMax),
            "MatchedRecord(RecordPoint(Key: 9, Payload: 90))"
        );
        assert_eq!(
            run(&mut tree, CRUDOperation::PopMin),
            "Deleted(key: 1, payload: 10, version: 9)"
        );
        assert_eq!(run(&mut tree, CRUDOperation::PeekMin), "MatchedRecord(None)");
        assert_eq!(run(&mut tree, CRUDOperation::PopMin), "Error");
        assert_eq!(
            run(&mut tree, CRUDOperation::PopMax),
            "Deleted(key: 9, payload: 90, version: 11)"
        );
    }
}

#[test]
fn trees_of_version_trees_show_nothing() {
    let mut tree = SmallTree::new(LockingStrategy::OLC, VersionIndexType::BTree);
    assert_eq!(run(&mut tree, CRUDOperation::Insert(5, 50)), "Inserted(key: 5, version: 2)");
    assert_eq!(run(&mut tree, CRUDOperation::Point(5, 2)), "MatchedRecord(None)");
    assert_eq!(run(&mut tree, CRUDOperation::Update(5, 51)), "Error");
    assert_eq!(run(&mut tree, CRUDOperation::Delete(5)), "Error");
    assert_eq!(run(&mut tree, CRUDOperation::PeekMax), "MatchedRecord(None)");
}

#[test]
fn visits_are_counted_by_level_and_leaf() {
    let mut tree = SmallTree::new(LockingStrategy::OLC, VersionIndexType::VANILLA);
    assert_eq!(tree.dispatch(CRUDOperation::Insert(1, 1)).0, 1);
    for k in 2..=4u64 {
        let _ = tree.dispatch(CRUDOperation::Insert(k, k));
    }
    assert_eq!(tree.height(), 2);
    assert_eq!(tree.count_pages(), 3);
    assert_eq!(tree.dispatch(CRUDOperation::Update(1, 2)).0, 2);
    assert_eq!(tree.dispatch(CRUDOperation::Range(Interval::new(0, 100), 3)).0, 4);
    assert_eq!(tree.dispatch(CRUDOperation::Point(4, 3)).0, 2);
}

#[test]
fn large_keys_have_their_place() {
    let mut tree = SmallTree::new(LockingStrategy::OLC, VersionIndexType::VANILLA);
    for k in 0..40u64 {
        let _ = tree.dispatch(CRUDOperation::Insert(u64::MAX - k, k));
        let _ = tree.dispatch(CRUDOperation::Insert(k, k));
    }
    let now = tree.committed_version();
    assert_eq!(keys(&mut tree, 0, u64::MAX, now).len(), 80);
    assert_eq!(
        keys(&mut tree, u64::MAX - 1, u64::MAX, now),
        vec![(u64::MAX - 1, 1), (u64::MAX, 0)]
    );
}

#[test]
fn texts_of_results() {
    let records = vec![RecordPoint::new(1u64, 2u64), RecordPoint::new(3, 4)];
    let result = CRUDOperationResult::from(records);
    assert_eq!(
        result.to_string(),
        "MatchedRecords[len=2\nRecordPoint(Key: 1, Payload: 2)\nRecordPoint(Key: 3, Payload: 4)\n]"
    );
    let result: CRUDOperationResult = Some(RecordPoint::new(1u64, 2u64)).into();
    assert_eq!(result.to_string(), "MatchedRecord(RecordPoint(Key: 1, Payload: 2))");
    assert_eq!(CRUDOperationResult::default().to_string(), "Error");
    assert_eq!(
        CRUDOperationResult::ZeroAffected(CRUDOperationInnerReason::KeyAlreadyDeleted).to_string(),
        "ZeroAffected(KeyAlreadyDeleted"
    );
    assert_eq!(
        CRUDOperationResult::ZeroAffected(CRUDOperationInnerReason::KeyDoesNotExist).to_string(),
        "ZeroAffected(KeyDoesNotExist)"
    );
}

#[test]
fn reading_transactions() {
    assert!(CRUDOperation::Point(1, 2).is_read());
    assert!(CRUDOperation::Range(Interval::new(1, 2), 3).is_read());
    assert!(CRUDOperation::PeekMin.is_read());
    assert!(CRUDOperation::PeekMax.is_read());
    assert!(!CRUDOperation::PopMin.is_read());
    assert!(!CRUDOperation::Insert(1, 2).is_read());
    assert!(!CRUDOperation::Empty.is_read());
}

#[test]
fn strategies() {
    let hybrid = LockingStrategy::HybridLocking { read_attempts: 4 };
    let light = LockingStrategy::LightweightHybridLock { read_attempts: 1, write_attempts: 2 };
    let orwc = LockingStrategy::ORWC { attempts: 3 };
    assert!(hybrid.is_optimistic() && light.is_optimistic());
    assert!(LockingStrategy::OLC.is_optimistic());
    assert!(!orwc.is_optimistic() && !LockingStrategy::LockCoupling.is_optimistic());
    assert!(LockingStrategy::MonoWriter.is_mono_writer());
    assert_eq!(hybrid.to_string(), "HybridLocking(Attempts=4)");
    assert_eq!(light.to_string(), "LightweightHybridLock(Read=1;Write=2)");
    assert_eq!(orwc.to_string(), "ORWC(Attempts=3)");
    assert_eq!(LockingStrategy::LockCoupling.to_string(), "LockCoupling");
    assert_eq!(LockingStrategy::OLC.to_string(), "OLC");
}

#[test]
fn leaf_pages() {
    let mut page: LeafPage<3, RecordPoint<u64, u64>> = LeafPage::new();
    assert!(page.is_empty());
    assert_eq!(page.search(4), Err(0));
    page.as_records_mut().push(RecordPoint::new(2, 20));
    page.as_records_mut().push(RecordPoint::new(4, 40));
    page.as_records_mut().push(RecordPoint::new(6, 60));
    assert!(page.is_full());
    assert_eq!(page.search(4), Ok(1));
    assert_eq!(page.search(5), Err(2));
    page.set_len(1);
    assert_eq!(page.len(), 1);
    assert_eq!(page.as_records()[0].payload, 20);
    assert!(LeafPage::<3, RecordPoint<u64, u64>>::default().is_empty());
}

#[test]
fn intervals() {
    let mut interval = Interval::new(3, 5);
    assert!(interval.contains(3) && interval.contains(5));
    assert!(!interval.contains(2) && !interval.contains(6));
    interval.set_upper(9);
    assert!(interval.contains(6));
}
