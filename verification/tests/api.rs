use mvbtree::api::{init_tree, HL, LC, LHL, MONO, OLC, ORWC};

#[test]
fn a_store_gives_back_what_it_got() {
    for protocol in [ORWC, OLC, LHL, MONO, HL, LC, 17] {
        let mut store = init_tree(protocol, 4, 4);
        assert_eq!(store.find(1), None);
        assert!(store.insert(1, 10));
        assert!(store.insert(1, 11));
        assert_eq!(store.find(1), Some(10));
        assert!(store.update(1, 12));
        assert!(!store.update(2, 12));
        assert_eq!(store.find(1), Some(12));
        assert!(store.insert(3, 30));
        let pairs: Vec<(u64, u64)> = store.scan(0, 4).iter().map(|r| (r.key, r.payload)).collect();
        assert_eq!(pairs, vec![(1, 12), (3, 30)]);
        assert_eq!(store.scan(2, 1).len(), 0);
        assert_eq!(store.scan(2, 0).len(), 0);
        assert!(store.remove(1));
        assert!(!store.remove(1));
        assert_eq!(store.find(1), None);
    }
}

#[test]
fn a_negative_size_scans_to_the_far_end() {
    let mut store = init_tree(OLC, 0, 0);
    for k in [1u64, 5, 1 << 40] {
        assert!(store.insert(k, k));
    }
    let keys: Vec<u64> = store.scan(3, -10).iter().map(|r| r.key).collect();
    assert_eq!(keys, vec![5, 1 << 40]);
}
