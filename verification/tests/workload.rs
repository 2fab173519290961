use std::collections::HashMap;

use mvbtree::crud_model::crud_api::CRUDDispatcher;
use mvbtree::crud_model::crud_operation::CRUDOperation;
use mvbtree::crud_model::crud_operation_result::CRUDOperationResult;
use mvbtree::locking::locking_strategy::LockingStrategy;
use mvbtree::record_model::v_record_point::VersionIndexType;
use mvbtree::tree::bplus_tree::BPlusTree;
use mvbtree::utils::interval::Interval;
use mvbtree::workload::config::{total_experiments, ClockType, GroupConfig, Ratios, SubGroupConfig};
use mvbtree::workload::dispatcher::{new_INDEX, Access, TreeDispatcher};
use mvbtree::workload::experiment::{
    block_alloc_reuses, block_allocs_since, chain_tail_line, choose_scan, draw, experiments_header, head_line, height_root, init_tail_line, keys_from,
    next_operation, olap_file_name, olap_totals, ran_enough, scans_header, summarize, totals_line, v_index_prefix,
    worker_action, OlapResult, StepReport, Tally, WorkerAction,
};
use mvbtree::workload::fill::{draw_key, insert_drawn, Drawn};
use mvbtree::workload::format::format_insertions;
use mvbtree::workload::json::{read_inserts, read_keys, write_keys, JsonFailure};
use mvbtree::workload::keys::{dec_key, inc_key};
use mvbtree::workload::olap::{
    after_scan, choose_snapshot, count_scan, may_scan, olap_header, random_window, sample_file_name, scan_bounds, scan_plan,
    scan_query, window, ControlSignal, OlapSample, ScanRange,
};
use mvbtree::workload::oltp::{oltp_header, OltpReport};
use mvbtree::workload::paper;
use mvbtree::workload::parameters::{hle, parse_load_kind, parse_test_kind};
use mvbtree::workload::partition::{bulk_chunks, chunks, split_work};
use mvbtree::workload::payload::{rnd_str, rnd_str_vec, PayloadData, PayloadIndirection};
use mvbtree::workload::plan::{load_phases, schedule};
use mvbtree::workload::query::{decode_queries, load_query, UnknownOperation};
use mvbtree::workload::runner::{run_all, RunResult};

type SmallTree = BPlusTree<4, 3>;

fn inserts(n: u64) -> Vec<CRUDOperation> {
    (0..n).map(|k| CRUDOperation::Insert(k, k)).collect()
}

fn keys_in(operations: &[CRUDOperation]) -> Vec<u64> {
    operations
        .iter()
        .map(|op| match op {
            CRUDOperation::Insert(k, _) | CRUDOperation::Update(k, _) => *k,
            CRUDOperation::Delete(k) => *k,
            _ => u64::MAX,
        })
        .collect()
}

fn sub_group(threads: usize) -> SubGroupConfig {
    SubGroupConfig {
        olap_joint_workload: true,
        olap_workers: 2,
        olaps_tx_per_worker: 3,
        skew: "0.5".to_string(),
        skew_n: 100,
        gc_enable: false,
        threads,
        total_tx: 7,
        ratios: Ratios { insert: 10, update: 20, delete: 30, point_reads: 25, range_reads: 15 },
        range_size: 9,
    }
}

#[test]
fn keys_stop_at_the_ends() {
    assert_eq!(inc_key(4), 5);
    assert_eq!(inc_key(u64::MAX), u64::MAX);
    assert_eq!(dec_key(4), 3);
    assert_eq!(dec_key(0), 0);
    assert_eq!(dec_key(inc_key(9)), 9);
}

#[test]
fn large_numbers() {
    assert_eq!(format_insertions(0), "0");
    assert_eq!(format_insertions(999), "999");
    assert_eq!(format_insertions(1_000), "1 K");
    assert_eq!(format_insertions(2_003_004_005), "2 B + 3 Mio + 4 K + 5");
    assert_eq!(format_insertions(5_000_000_000), "5 B");
    assert_eq!(format_insertions(1_000_007), "1 Mio + 7");
    assert_eq!(paper::format_insertions(0), "0 B");
    assert_eq!(paper::format_insertions(3_000), "3 K");
    assert_eq!(paper::format_insertions(3_000_000), "3 Mio");
    assert_eq!(paper::format_insertions(12_000_000_000), "12 B");
    assert_eq!(paper::format_insertions(3_001), "3001");
}

#[test]
fn names_of_version_indexes() {
    let load = |s: &str| parse_load_kind(&s.to_string());
    assert!(load("sk") == VersionIndexType::SkipList);
    assert!(load("ll") == VersionIndexType::VANILLA);
    assert!(load("fg") == VersionIndexType::FrugalSkipList);
    assert!(load("bt") == VersionIndexType::BTree);
    assert!(load("w") == VersionIndexType::VWEAVER);
    assert!(load("?") == VersionIndexType::VANILLA);
    let test = |s: &str| parse_test_kind(&s.to_string());
    for s in ["l", "ll", "linkedlists", "vanilla"] {
        assert!(test(s) == VersionIndexType::VANILLA);
    }
    for s in ["sk", "skiplist", "skiplists"] {
        assert!(test(s) == VersionIndexType::SkipList);
    }
    for s in ["fg", "f", "frugallists"] {
        assert!(test(s) == VersionIndexType::FrugalSkipList);
    }
    for s in ["weaver", "vweaver", "w"] {
        assert!(test(s) == VersionIndexType::VWEAVER);
    }
    for s in ["btree", "index", "dexa", "anything"] {
        assert!(test(s) == VersionIndexType::BTree);
    }
    assert_eq!(hle(false, true), "OFF   ");
    assert_eq!(hle(true, true), "ON    ");
    assert_eq!(hle(true, false), "NO HTL");
}

#[test]
fn work_is_split_evenly_with_the_rest_first() {
    let work = split_work(&inserts(11), 3);
    assert_eq!(keys_in(&work[0]), vec![0, 1, 2, 9, 10]);
    assert_eq!(keys_in(&work[1]), vec![3, 4, 5]);
    assert_eq!(keys_in(&work[2]), vec![6, 7, 8]);
    let work = split_work(&inserts(1), 2);
    assert_eq!(keys_in(&work[0]), vec![0]);
    assert_eq!(work[1].len(), 0);
}

#[test]
fn chunks_may_leave_something_out() {
    let parts = chunks(&inserts(7), 3);
    assert_eq!(parts.len(), 3);
    assert_eq!(keys_in(&parts[2]), vec![6]);
    let work = bulk_chunks(&inserts(7), 3);
    assert_eq!(keys_in(&work[0]), vec![0, 1, 6]);
    assert_eq!(keys_in(&work[1]), vec![2, 3]);
    let work = bulk_chunks(&inserts(5), 3);
    assert_eq!(work.len(), 3);
    assert_eq!(keys_in(&work[0]), vec![0, 4]);
    assert_eq!(keys_in(&work[2]), vec![2]);
    let work = bulk_chunks(&inserts(6), 3);
    assert_eq!(keys_in(&work[0]), vec![0, 1]);
}

#[test]
fn runs_are_counted() {
    let mut tree = SmallTree::new(LockingStrategy::OLC, VersionIndexType::VANILLA);
    let ops = vec![
        CRUDOperation::Insert(1, 1),
        CRUDOperation::Insert(1, 2),
        CRUDOperation::Update(1, 3),
        CRUDOperation::PopMin,
        CRUDOperation::PopMax,
        CRUDOperation::Point(1, 2),
        CRUDOperation::Empty,
    ];
    let result = run_all(&mut tree, &ops);
    assert_eq!((result.success, result.errors, result.node_visits), (4, 3, 6));
}

#[test]
fn query_files() {
    let mut bytes = vec![0u8, 1, 0, 0, 0, 0, 0, 0, 0];
    bytes.extend([1u8, 1, 0, 0, 0, 0, 0, 0, 0]);
    bytes.extend([2u8, 0, 1, 0, 0, 0, 0, 0, 0x80]);
    bytes.extend([0u8, 9]);
    let operations = decode_queries(&bytes).unwrap();
    assert_eq!(operations.len(), 3);
    assert!(matches!(operations[0], CRUDOperation::Insert(1, 0)));
    assert!(matches!(operations[1], CRUDOperation::Update(1, 0)));
    assert!(matches!(operations[2], CRUDOperation::Delete(0x8000_0000_0000_0100)));
    assert_eq!(decode_queries(&[]).unwrap().len(), 0);
    bytes[9] = 7;
    assert!(decode_queries(&bytes).unwrap_err() == UnknownOperation { position: 1, tag: 7 });
}

#[test]
fn replays_stop_at_a_failure() {
    let mut tree = SmallTree::new(LockingStrategy::OLC, VersionIndexType::SkipList);
    let replay = load_query(&mut tree, &inserts(5));
    assert_eq!((replay.executed, replay.last_key, replay.failed), (5, Some(4), false));
    let ops = [CRUDOperation::Delete(3), CRUDOperation::Update(3, 0), CRUDOperation::Delete(2)];
    let replay = load_query(&mut tree, &ops);
    assert_eq!((replay.executed, replay.last_key, replay.failed), (1, Some(3), true));
    let replay = load_query(&mut tree, &[CRUDOperation::Delete(3)]);
    assert_eq!((replay.executed, replay.last_key, replay.failed), (0, None, true));
}

#[test]
fn phases_succeed() {
    let ops = load_phases(&[4, 2, 8], &[2, 2, 8], &[8, 4]);
    assert_eq!(keys_in(&ops), vec![4, 2, 8, 2, 2, 8, 8, 4]);
    assert!(matches!(ops[0], CRUDOperation::Insert(4, 4)));
    let mut tree = SmallTree::new(LockingStrategy::OLC, VersionIndexType::FrugalSkipList);
    assert_eq!(run_all(&mut tree, &ops).errors, 0);
}

#[test]
fn scans_of_snapshots() {
    assert!(scan_bounds(ScanRange::Fixed(9)) == Interval::new(0, 9));
    assert!(scan_bounds(ScanRange::Behind(1500)) == Interval::new(500, 1500));
    assert!(scan_bounds(ScanRange::Behind(999)) == Interval::new(0, 999));
    assert!(!may_scan(1) && may_scan(2));
    assert_eq!(choose_snapshot(true, 7), 7);
    let mut low = false;
    for _ in 0..200 {
        let si = choose_snapshot(false, 3);
        assert!(1 <= si && si <= 3);
        low = low || si == 1;
    }
    assert!(low);
    assert!(matches!(
        scan_query(ScanRange::Fixed(9), 4),
        CRUDOperation::Range(Interval { lower: 0, upper: 9 }, 4)
    ));
    let mut tree = SmallTree::new(LockingStrategy::OLC, VersionIndexType::VANILLA);
    let _ = run_all(&mut tree, &inserts(10));
    assert_eq!(count_scan(&tree, ScanRange::Fixed(100), 6), 5);
    assert_eq!(after_scan(3, ControlSignal::Absent), Some(4));
    assert_eq!(after_scan(3, ControlSignal::Open), Some(3));
    assert_eq!(after_scan(3, ControlSignal::Disconnected), None);
    let sample = OlapSample {
        target_snapshot: 1,
        current_snapshot: 2,
        sleep_time: 0,
        range_start: 3,
        range_end: 4,
        count_results: 5,
        latency: 340282366920938463463374607431768211455,
    };
    assert_eq!(sample.csv_line(), "1,2,0,3,4,5,340282366920938463463374607431768211455\n");
    assert_eq!(
        olap_header(),
        "target_snapshot,current_snapshot,sleep_time,range_start,range_end,count_results,latency\n"
    );
    assert!(window(5, 10, 100) == Interval::new(5, 15));
    assert!(window(95, 10, 100) == Interval::new(85, 95));
    assert_eq!(scan_plan(false, 10, 4), (3, 2));
    assert_eq!(scan_plan(true, 10, 4), (5, 2));
    assert_eq!(scan_plan(true, 12, 4), (4, 3));
}

#[test]
fn load_reports() {
    let report = OltpReport {
        is_concurrent: true,
        oltp_threads: 4,
        olap_threads: 2,
        v_index: VersionIndexType::VWEAVER,
        skew: "0.4".to_string(),
        gc: false,
        update_in_place: true,
        slice_per_thread: 25,
        rest_slice: 1,
        blocks_allocated: 6,
        blocks_reused: 0,
        total_num_scan_tx: 8,
        total_num_oltp_tx: 101,
        total_oltp_time: 9,
        total_olap_time: 10,
    };
    assert_eq!(report.csv_line(), "true,4,2,vWeaver,0.4,false,true,25,1,6,0,8,101,9,10\n");
    assert_eq!(oltp_header().split(',').count(), 15);
}

#[test]
fn configurations() {
    let mut config = GroupConfig::default();
    assert!(config.is_valid() && config.is_write_only() && !config.is_read_only());
    assert!(!config.is_mix_read_write());
    assert_eq!(config.to_string(), "OLC,VANILLA,_,1,10000,_,1,100,0,0,0,0,0");
    assert!(config.index_handler().0 == LockingStrategy::OLC);
    config.protocol = LockingStrategy::MonoWriter;
    assert!(config.is_valid());
    config.init = sub_group(2);
    assert!(!config.is_valid() && config.is_mix_read_write());
    config.init.ratios =
        Ratios { insert: 0, update: 0, delete: 0, point_reads: 60, range_reads: 40 };
    assert!(config.is_valid() && config.is_read_only());
    config.chain_groups.push(sub_group(3));
    assert_eq!(config.num_chains(), 1);
    assert_eq!(sub_group(3).to_string(), "0.5,100,_,3,10,20,30,25,15,9");
    let groups = vec![config, GroupConfig::default()];
    assert_eq!(total_experiments(&groups), 3);
    assert_eq!(schedule(&groups), vec![(0, 0), (0, 1), (1, 0)]);
    assert_eq!(ClockType::FREE.to_string(), "FREE");
    assert_eq!(ClockType::OPT.to_string(), "OPT");
    assert_eq!(ClockType::SYNC.to_string(), "SYNC");
}

#[test]
fn draws_stand_for_transactions() {
    for _ in 0..100 {
        assert!(draw() < 100);
    }
    let ratios = sub_group(1).ratios;
    assert!(matches!(next_operation(9, &ratios, 5, 3, 2), CRUDOperation::Insert(3, 0)));
    assert!(matches!(next_operation(10, &ratios, 5, 3, 2), CRUDOperation::Point(3, 2)));
    assert!(matches!(
        next_operation(35, &ratios, 5, 3, 2),
        CRUDOperation::Range(Interval { lower: 3, upper: 7 }, 2)
    ));
    assert!(matches!(
        next_operation(49, &ratios, 5, u64::MAX - 5, 2),
        CRUDOperation::Range(Interval { lower: _, upper: u64::MAX }, 2)
    ));
    assert!(matches!(next_operation(50, &ratios, 5, 3, 2), CRUDOperation::Delete(3)));
    assert!(matches!(next_operation(80, &ratios, 5, 3, 2), CRUDOperation::Update(3, 0)));
    assert!(!keys_from(0, 0).contains(0));
    assert!(keys_from(4, 1) == Interval::new(4, 4));
    assert!(!ratios.is_nop());
    assert!(worker_action(true, true) == WorkerAction::Stop);
    assert!(worker_action(false, true) == WorkerAction::Sleep);
    assert!(worker_action(false, false) == WorkerAction::Execute);
}

#[test]
fn experiment_reports() {
    let mut tally = Tally::new();
    tally.record(&CRUDOperationResult::Error);
    tally.record(&CRUDOperationResult::Inserted(1, 2));
    tally.record(&CRUDOperationResult::MatchedRecord(None));
    assert!(tally == Tally { success: 2, error: 1 });
    let summary = summarize(&vec![(tally, 5), (Tally { success: 3, error: 4 }, 9), (tally, 7)]);
    assert_eq!((summary.0.success, summary.0.error, summary.1), (7, 6, 9));
    assert_eq!(totals_line(&summary), ",13,7,6,9");
    let scan = OlapResult {
        snapshot: 1,
        range_max: 2,
        latency: 3,
        current_snapshot: 4_000_000,
        sleep_time: 50,
        count: 6,
    };
    assert_eq!(scan.csv_line(), "1,4000000,50,2,6,3\n");
    assert_eq!(olap_totals(&vec![scan, scan], 3, 5), (8, 6));
    assert_eq!(v_index_prefix(VersionIndexType::FrugalSkipList), "btree_fg");
    assert_eq!(olap_file_name(VersionIndexType::VANILLA, 3, 0), "btree_ll_olap_3_INIT.csv");
    assert_eq!(olap_file_name(VersionIndexType::BTree, 3, 2), "btree_btree_olap_3_2.csv");
    assert_eq!(head_line(4, 0, 100), "B+Tree,4,INIT,100");
    assert_eq!(head_line(4, 1, 100), "B+Tree,4,1,100");
    let report = StepReport {
        log_height: 1,
        actual_height: 2,
        blocks_allocated: 3,
        blocks_reused: 4,
        olaps_total_time: 5,
        olaps_workers: 6,
        olaps_per_worker: 7,
        olaps_avg_sleep_time: 8,
        olaps_joint_workload: false,
        total_running_time: 9,
    };
    assert_eq!(
        init_tail_line(&GroupConfig::default(), &report),
        ",OLC,VANILLA,_,1,10000,_,1,100,0,0,0,0,0,1,2,3,4,5,6,7,8,false,9"
    );
    assert_eq!(
        chain_tail_line(
            LockingStrategy::OLC,
            VersionIndexType::SkipList,
            ClockType::SYNC,
            &sub_group(3),
            &report
        ),
        ",OLC,SkipList,SYNC,0.5,100,_,3,10,20,30,25,15,9,1,2,3,4,5,6,7,8,false,9"
    );
    let mut tree = SmallTree::new(LockingStrategy::OLC, VersionIndexType::VANILLA);
    let _ = run_all(&mut tree, &inserts(4));
    assert_eq!(height_root(&tree), (2, 2));
    assert_eq!(block_alloc_reuses(&tree), (3, 0));
}

#[test]
fn shared_trees() {
    let mut tree = TreeDispatcher::new(LockingStrategy::MonoWriter, VersionIndexType::VANILLA);
    assert!(tree.access(&CRUDOperation::PeekMin) == Access::Shared);
    assert!(tree.access(&CRUDOperation::PopMin) == Access::Exclusive);
    let _ = tree.dispatch(CRUDOperation::Insert(1, 1));
    assert_eq!(tree.as_index().committed_version(), 2);
    let free = TreeDispatcher::new(LockingStrategy::OLC, VersionIndexType::VANILLA);
    assert!(free.access(&CRUDOperation::PopMin) == Access::Free);
    assert_eq!(new_INDEX(LockingStrategy::OLC, VersionIndexType::VANILLA).height(), 1);
}

#[test]
fn hits_of_leaves() {
    let mut tree = SmallTree::new(LockingStrategy::OLC, VersionIndexType::VANILLA);
    assert_eq!(paper::make_leaf_hits_map(&tree).len(), 0);
    let _ = run_all(&mut tree, &paper::inserts_of(&[10, 20, 30, 40, 50]));
    let mut map = paper::make_leaf_hits_map(&tree);
    assert_eq!(map[0].0.lower, 0);
    assert_eq!(map[map.len() - 1].0.upper, u64::MAX);
    for key in [0, 10, 11, 25, u64::MAX] {
        let before: Vec<usize> = map.iter().map(|h| h.1).collect();
        paper::leaf_hit(&mut map, key);
        for (i, hits) in map.iter().enumerate() {
            let more = if hits.0.contains(key) { 1 } else { 0 };
            assert_eq!(hits.1, before[i] + more);
        }
    }
    assert_eq!(map.iter().map(|h| h.1).sum::<usize>(), 5);
    let text = paper::hist_text(&vec![(Interval::new(0, 7), 2), (Interval::new(8, 9), 0)], 5);
    assert_eq!(text, "Low,High,Count,Leaf Size,N\n0,7,2,170,5\n8,9,0,170,5");
    let (visits, keys) = paper::dump_keys(&tree);
    assert_eq!(keys, vec![10, 20, 30, 40, 50]);
    assert_eq!(visits, 2 * map.len());
}

#[test]
fn mixed_workloads() {
    assert!(matches!(paper::mixed_operation(true, true, 5, 3), CRUDOperation::Update(5, 0)));
    assert!(matches!(
        paper::mixed_operation(false, false, 5, 3),
        CRUDOperation::Point(5, u64::MAX)
    ));
    let star = u64::MAX - 1;
    match paper::mixed_operation(false, true, 5, 3) {
        CRUDOperation::Range(i, v) => assert!(i == Interval::new(5, 8) && v == star),
        _ => panic!("a range query was asked for"),
    }
    match paper::mixed_operation(false, true, u64::MAX, 3) {
        CRUDOperation::Range(i, v) => {
            assert!(i == Interval::new(u64::MAX - 3, u64::MAX) && v == star)
        }
        _ => panic!("a range query was asked for"),
    }
    let ops = [
        CRUDOperation::Point(1, 1),
        CRUDOperation::Range(Interval::new(0, 1), 1),
        CRUDOperation::Update(1, 1),
        CRUDOperation::Point(2, 1),
    ];
    assert_eq!(paper::count_operations(&ops), (2, 1, 1));
    assert_eq!(paper::rq_offsets(), vec![171, 2736, 21888]);
    assert_eq!(paper::leaf_fill(10_000_000), (85, 170, 128, 78125));
    assert!(paper::protocols()[0] == LockingStrategy::ORWC { attempts: 4 });
    let a = RunResult { success: 1, errors: 2, node_visits: 3 };
    assert_eq!(paper::fold_results(&vec![a, a]), (4, 6));
}

#[test]
fn random_payloads() {
    let s = rnd_str(3, 5);
    assert!(3 <= s.len() && s.len() <= 5);
    assert!(s.chars().all(|c| c.is_ascii_alphanumeric()));
    assert_ne!(rnd_str(40, 40), rnd_str(40, 40));
    assert_eq!(rnd_str_vec(4, 1, 2).len(), 4);
    let payload = PayloadIndirection::default();
    assert_eq!(payload.0.attributes.len(), 67);
    assert!(payload.0.attr(66).len() >= 704 && payload.0.attr(66).len() <= 7078);
    let small = PayloadIndirection(Box::new(PayloadData {
        attributes: vec!["a".to_string(), "b".to_string()],
    }));
    assert_eq!(small.to_string(), "a, b");
}

#[test]
fn drawn_keys_are_inserted_once() {
    let mut tree = SmallTree::new(LockingStrategy::OLC, VersionIndexType::VANILLA);
    tree.dispatch(CRUDOperation::Insert(9, 1));
    let mut known = HashMap::new();
    assert_eq!(insert_drawn(&mut tree, &mut known, 5), Drawn::Inserted);
    assert_eq!(known.get(&5), Some(&tree.committed_version()));
    let clock = tree.committed_version();
    assert_eq!(insert_drawn(&mut tree, &mut known, 5), Drawn::Known);
    assert_eq!(tree.committed_version(), clock);
    assert_eq!(insert_drawn(&mut tree, &mut known, 9), Drawn::Failed);
    assert_eq!(tree.committed_version(), clock + 1);
    assert_eq!(known.len(), 1);
    assert_ne!((draw_key(), draw_key()), (draw_key(), draw_key()));
}

#[test]
fn scans_are_chosen_within_bounds() {
    for _ in 0..100 {
        let interval = random_window(1_000, 10_000);
        assert_eq!(interval.upper - interval.lower, 1_000);
        assert!(interval.upper < 10_000);
        let (snapshot, key) = choose_scan(3, 7);
        assert!(snapshot <= 3 && key < 7);
    }
    assert_eq!(choose_scan(0, 1), (0, 0));
    assert_eq!(choose_snapshot(true, 0), 0);
}

#[test]
fn pages_count_from_where_a_step_began() {
    let mut tree = SmallTree::new(LockingStrategy::OLC, VersionIndexType::VANILLA);
    let (before, _) = block_alloc_reuses(&tree);
    run_all(&mut tree, &inserts(10));
    let (after, reused) = block_alloc_reuses(&tree);
    assert!(after > before && reused == 0);
    assert_eq!(block_allocs_since(&tree, before), (after - before, 0));
    assert_eq!(block_allocs_since(&tree, after + 1), (0, 0));
}

#[test]
fn different_numbers_have_different_texts() {
    let numbers = [0, 1, 11, 999, 1_000, 1_001, 1_000_000, 1_001_000, 1_000_000_000, 11_000_000_000];
    let texts: Vec<String> = numbers.iter().map(|n| format_insertions(*n)).collect();
    for (i, text) in texts.iter().enumerate() {
        assert_eq!(texts.iter().position(|t| t == text), Some(i));
    }
    assert_eq!(format_insertions(1_234_005_000), "1 B + 234 Mio + 5 K");
    assert_eq!(paper::format_insertions(usize::MAX), usize::MAX.to_string());
}

#[test]
fn lists_of_keys_are_read_as_they_were_written() {
    let keys = vec![0, 7, u64::MAX];
    let text = write_keys(&keys);
    assert_eq!(text, b"[0,7,18446744073709551615]");
    assert_eq!(read_keys(&text), Ok(keys.clone()));
    assert_eq!(write_keys(&[]), b"[]");
    assert_eq!(read_keys(b" [ 3 ,4]\n"), Ok(vec![3, 4]));
    assert_eq!(read_keys(b"[-1]"), Err(JsonFailure));
    assert_eq!(read_keys(b"{}"), Err(JsonFailure));
    assert_eq!(keys_in(&read_inserts(&text).unwrap()), keys);
    assert!(read_inserts(b"[1").is_err());
}

#[test]
fn ratios_share_a_hundred_draws() {
    let mut ratios = Ratios { insert: 20, update: 20, delete: 20, point_reads: 20, range_reads: 20 };
    assert!(ratios.is_complete());
    ratios.insert = 21;
    assert!(!ratios.is_complete());
    ratios.insert = usize::MAX;
    assert!(!ratios.is_complete());
    assert!(ran_enough(3, 3) && !ran_enough(2, 3));
}

#[test]
fn a_shared_tree_can_be_changed_in_place() {
    let mut tree = TreeDispatcher::new(LockingStrategy::MonoWriter, VersionIndexType::VANILLA);
    let _ = tree.as_index_mut().dispatch(CRUDOperation::Insert(4, 40));
    assert_eq!(tree.as_index().committed_version(), 2);
    assert_eq!(tree.access(&CRUDOperation::PeekMin), Access::Shared);
}

#[test]
fn leaf_maps_cover_trees_of_few_levels_only() {
    let mut tree = SmallTree::new(LockingStrategy::OLC, VersionIndexType::VANILLA);
    let mut key = 0;
    while tree.height() < 4 {
        if tree.height() > 1 {
            let map = paper::make_leaf_hits_map(&tree);
            assert!(paper::is_cover(&map));
        }
        let _ = tree.dispatch(CRUDOperation::Insert(key, 0));
        key += 10;
    }
    let map = paper::make_leaf_hits_map(&tree);
    assert!(!paper::is_cover(&map));
    assert_eq!(map[0].0.lower, 0);
    assert_eq!(map[map.len() - 1].0.upper, u64::MAX);
    let back: Vec<usize> = (0..map.len()).filter(|i| map[*i].0.upper < map[*i].0.lower).collect();
    assert!(!back.is_empty());
    for i in back {
        assert_eq!(map[i + 1].0.lower, map[i].0.upper + 1);
        assert!(map[..i].iter().any(|h| h.0.upper == map[i].0.upper));
    }
    assert!(!paper::is_cover(&vec![]));
    assert!(!paper::is_cover(&vec![(Interval::new(0, 4), 0), (Interval::new(6, u64::MAX), 0)]));
}

#[test]
fn names_and_heads_of_files() {
    let plain = sample_file_name(VersionIndexType::SkipList, false, "0.4");
    assert_eq!(plain, "btree_SkipList_olap_skew_0.4.csv");
    let lazy = sample_file_name(VersionIndexType::VWEAVER, true, "0");
    assert_eq!(lazy, "btree_vWeaver_lazy_olap_skew_0.csv");
    assert_eq!(experiments_header().split(',').count(), 31);
    assert!(scans_header().ends_with("count_results,latency\n"));
}

#[test]
fn an_empty_transaction_is_accepted_and_fails() {
    let mut tree = SmallTree::new(LockingStrategy::OLC, VersionIndexType::VANILLA);
    assert!(tree.accepts(&CRUDOperation::Empty));
    assert!(matches!(tree.dispatch(CRUDOperation::Empty), (0, CRUDOperationResult::Error)));
}
