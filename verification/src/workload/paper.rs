//! Histograms of where keys fall, and mixed workloads.

use vstd::prelude::*;
use vstd::string::*;
use crate::crud_model::crud_api::{CRUDDispatcher, NodeVisits};
use crate::crud_model::crud_operation::CRUDOperation;
use crate::crud_model::crud_operation_result::CRUDOperationResult;
use crate::locking::locking_strategy::LockingStrategy;
use crate::page_model::node;
use crate::record_model::record_point::RecordPoint;
use crate::record_model::{Key, Payload, Version};
use crate::tree::bplus_tree;
use crate::tree::bplus_tree::BPlusTree;
use crate::tree::NUM_RECORDS;
use crate::utils::csv;
use crate::utils::interval::Interval;
use crate::utils::text;
use crate::workload::runner::RunResult;

verus! {

/// The payload of all records.
pub const PAYLOAD: Payload = 0;

/// The last snapshot that shows anything.
pub const VERSION_STAR: Version = 0xffff_ffff_ffff_fffe;

/// A number in the largest unit of which it is a multiple.
pub open spec fn unit_text(n: nat) -> Seq<char> {
    if n % 1_000_000_000 == 0 {
        text::decimal(n / 1_000_000_000) + " B"@
    } else if n % 1_000_000 == 0 {
        text::decimal(n / 1_000_000) + " Mio"@
    } else if n % 1_000 == 0 {
        text::decimal(n / 1_000) + " K"@
    } else {
        text::decimal(n)
    }
}

/// Writes a number in the largest unit of which it is a multiple. Where there is such a unit, it
/// has to be a number that a double-precision number holds exactly.
pub fn format_insertions(i: usize) -> (s: String)
    requires
        i % 1_000 == 0 ==> i <= 9_007_199_254_740_992u64,
    ensures
        s@ == unit_text(i as nat),
{
    let i: u64 = i as u64;
    if i % 1_000_000_000 == 0 {
        let mut s = text::number(i / 1_000_000_000);
        s.append(" B");
        s
    } else if i % 1_000_000 == 0 {
        let mut s = text::number(i / 1_000_000);
        s.append(" Mio");
        s
    } else if i % 1_000 == 0 {
        let mut s = text::number(i / 1_000);
        s.append(" K");
        s
    } else {
        text::number(i)
    }
}

/// An insertion of each key.
pub fn inserts_of(keys: &[Key]) -> (operations: Vec<CRUDOperation>)
    ensures
        operations@ == keys@.map_values(|key: Key| CRUDOperation::Insert(key, PAYLOAD)),
{
    let mut operations: Vec<CRUDOperation> = Vec::new();
    let mut i: usize = 0;
    let ghost all = keys@.map_values(|key: Key| CRUDOperation::Insert(key, PAYLOAD));
    while i < keys.len()
        invariant
            i <= keys@.len(),
            all == keys@.map_values(|key: Key| CRUDOperation::Insert(key, PAYLOAD)),
            operations@ == all.take(i as int),
        decreases keys@.len() - i,
    {
        operations.push(CRUDOperation::Insert(keys[i], PAYLOAD));
        assert(operations@ =~= all.take(i + 1));
        i = i + 1;
    }
    assert(all.take(i as int) =~= all);
    operations
}

/// The strategies that are compared.
pub fn protocols() -> (strategies: Vec<LockingStrategy>)
    ensures
        strategies@ == seq![LockingStrategy::ORWC { attempts: 4 }, LockingStrategy::OLC],
{
    let mut strategies: Vec<LockingStrategy> = Vec::new();
    strategies.push(LockingStrategy::ORWC { attempts: 4 });
    strategies.push(LockingStrategy::OLC);
    strategies
}

/// How wide range queries are: one, sixteen and a hundred and twenty-eight leaves and a record
/// each.
pub fn rq_offsets() -> (offsets: Vec<u64>)
    ensures
        offsets@ == seq![
            (NUM_RECORDS + 1) as u64,
            (16 * (NUM_RECORDS + 1)) as u64,
            (128 * (NUM_RECORDS + 1)) as u64,
        ],
{
    let leaf: u64 = NUM_RECORDS as u64 + 1;
    let mut offsets: Vec<u64> = Vec::new();
    offsets.push(leaf);
    offsets.push(16 * leaf);
    offsets.push(128 * leaf);
    offsets
}

/// The fewest, the most and the average number of records on a leaf, and how many leaves hold
/// `n` records on average.
pub fn leaf_fill(n: usize) -> (fill: (usize, usize, usize, usize))
    ensures
        fill == (85usize, 170usize, 128usize, (n / 128) as usize),
{
    let average: usize = NUM_RECORDS - NUM_RECORDS / 4;
    (NUM_RECORDS / 2, NUM_RECORDS, average, n / average)
}

/// A transaction of a mixed workload: an update, a query of a range behind the key, or before
/// it if there is no room behind, or a point query.
pub fn mixed_operation(update: bool, range: bool, key: Key, rq_offset: Key) -> (operation:
    CRUDOperation)
    requires
        !update && range && key + rq_offset > Key::MAX ==> rq_offset <= key,
    ensures
        operation == (if update {
            CRUDOperation::Update(key, PAYLOAD)
        } else if !range {
            CRUDOperation::Point(key, Version::MAX)
        } else if key + rq_offset > Key::MAX {
            CRUDOperation::Range(
                Interval { lower: (key - rq_offset) as Key, upper: key },
                VERSION_STAR,
            )
        } else {
            CRUDOperation::Range(
                Interval { lower: key, upper: (key + rq_offset) as Key },
                VERSION_STAR,
            )
        }),
{
    if update {
        CRUDOperation::Update(key, PAYLOAD)
    } else if range {
        match key.checked_add(rq_offset) {
            None => CRUDOperation::Range(Interval::new(key - rq_offset, key), VERSION_STAR),
            Some(end) => CRUDOperation::Range(Interval::new(key, end), VERSION_STAR),
        }
    } else {
        CRUDOperation::Point(key, Version::MAX)
    }
}

/// How many transactions are point queries.
pub open spec fn points(operations: Seq<CRUDOperation>) -> nat
    decreases operations.len(),
{
    if operations.len() == 0 {
        0
    } else {
        points(operations.drop_last()) + if operations.last() is Point {
            1nat
        } else {
            0nat
        }
    }
}

/// How many transactions are range queries.
pub open spec fn ranges(operations: Seq<CRUDOperation>) -> nat
    decreases operations.len(),
{
    if operations.len() == 0 {
        0
    } else {
        ranges(operations.drop_last()) + if operations.last() is Range {
            1nat
        } else {
            0nat
        }
    }
}

/// Counts point queries, range queries and all others.
pub fn count_operations(operations: &[CRUDOperation]) -> (counts: (usize, usize, usize))
    ensures
        counts.0 == points(operations@),
        counts.1 == ranges(operations@),
        counts.0 + counts.1 + counts.2 == operations@.len(),
{
    let total: usize = operations.len();
    let mut counts: (usize, usize, usize) = (0, 0, 0);
    let mut i: usize = 0;
    assert(operations@.take(0) =~= Seq::<CRUDOperation>::empty());
    while i < total
        invariant
            total == operations@.len(),
            i <= total,
            counts.0 == points(operations@.take(i as int)),
            counts.1 == ranges(operations@.take(i as int)),
            counts.0 + counts.1 + counts.2 == i,
        decreases total - i,
    {
        proof {
            let t = operations@.take(i + 1);
            assert(t.drop_last() =~= operations@.take(i as int));
            assert(t.last() == operations@[i as int]);
        }
        match operations[i] {
            CRUDOperation::Point(..) => {
                counts.0 = counts.0 + 1;
            },
            CRUDOperation::Range(..) => {
                counts.1 = counts.1 + 1;
            },
            _ => {
                counts.2 = counts.2 + 1;
            },
        }
        i = i + 1;
    }
    assert(operations@.take(i as int) =~= operations@);
    counts
}

/// All errors of some workers.
pub open spec fn error_sum(results: Seq<RunResult>) -> nat
    decreases results.len(),
{
    if results.len() == 0 {
        0
    } else {
        error_sum(results.drop_last()) + results.last().errors as nat
    }
}

/// All visits of some workers.
pub open spec fn visit_sum(results: Seq<RunResult>) -> nat
    decreases results.len(),
{
    if results.len() == 0 {
        0
    } else {
        visit_sum(results.drop_last()) + results.last().node_visits as nat
    }
}

/// Later results only add.
proof fn lemma_result_sums_ascend(results: Seq<RunResult>, n: int)
    requires
        0 <= n <= results.len(),
    ensures
        error_sum(results.take(n)) <= error_sum(results),
        visit_sum(results.take(n)) <= visit_sum(results),
    decreases results.len() - n,
{
    if n < results.len() {
        lemma_result_sums_ascend(results, n + 1);
        assert(results.take(n + 1).drop_last() =~= results.take(n));
    } else {
        assert(results.take(n) =~= results);
    }
}

/// Adds the errors and the visits of all workers up.
pub fn fold_results(results: &Vec<RunResult>) -> (total: (u64, NodeVisits))
    requires
        error_sum(results@) <= u64::MAX,
        visit_sum(results@) <= usize::MAX,
    ensures
        total.0 == error_sum(results@),
        total.1 == visit_sum(results@),
{
    let mut total: (u64, NodeVisits) = (0, 0);
    let mut i: usize = 0;
    assert(results@.take(0) =~= Seq::<RunResult>::empty());
    while i < results.len()
        invariant
            i <= results@.len(),
            error_sum(results@) <= u64::MAX,
            visit_sum(results@) <= usize::MAX,
            total.0 == error_sum(results@.take(i as int)),
            total.1 == visit_sum(results@.take(i as int)),
        decreases results@.len() - i,
    {
        proof {
            let t = results@.take(i + 1);
            assert(t.drop_last() =~= results@.take(i as int));
            assert(t.last() == results@[i as int]);
            lemma_result_sums_ascend(results@, i + 1);
        }
        total.0 = total.0 + results[i].errors;
        total.1 = total.1 + results[i].node_visits;
        i = i + 1;
    }
    assert(results@.take(i as int) =~= results@);
    total
}

/// The keys of some records.
pub open spec fn keys_of(records: Seq<RecordPoint<Key, Payload>>) -> Seq<Key> {
    records.map_values(|r: RecordPoint<Key, Payload>| r.key)
}

/// The keys of all records that have not been deleted, and how many pages were visited.
pub fn dump_keys<const FAN_OUT: usize, const NUM_RECORDS: usize>(
    tree: &BPlusTree<FAN_OUT, NUM_RECORDS>,
) -> (dump: (NodeVisits, Vec<Key>))
    requires
        tree.wf(),
    ensures
        dump.0 == tree.scan_visits(Interval { lower: 0, upper: Key::MAX }),
        exists|records: Seq<RecordPoint<Key, Payload>>| #[trigger]
            bplus_tree::scanned(
                tree@.records,
                Interval { lower: 0, upper: Key::MAX },
                VERSION_STAR,
                records,
            ) && dump.1@ == keys_of(records),
{
    let whole = Interval::new(Key::MIN, Key::MAX);
    match tree.dispatch_read(CRUDOperation::Range(whole, VERSION_STAR)) {
        (visits, CRUDOperationResult::MatchedRecords(records)) => {
            let mut keys: Vec<Key> = Vec::new();
            let mut i: usize = 0;
            while i < records.len()
                invariant
                    i <= records@.len(),
                    keys@ == keys_of(records@).take(i as int),
                decreases records@.len() - i,
            {
                keys.push(records[i].key);
                assert(keys@ =~= keys_of(records@).take(i + 1));
                i = i + 1;
            }
            assert(keys_of(records@).take(i as int) =~= keys_of(records@));
            (visits, keys)
        },
        (visits, _) => (visits, Vec::new()),
    }
}

/// An interval of keys, and how often it was hit.
pub type Hits = (Interval, usize);

/// The intervals lie side by side and cover all keys.
pub open spec fn covers(map: Seq<Hits>) -> bool {
    &&& map.len() > 0
    &&& map[0].0.lower == 0
    &&& map.last().0.upper == Key::MAX
    &&& forall|i: int| 0 <= i < map.len() ==> (#[trigger] map[i]).0.lower <= map[i].0.upper
    &&& forall|i: int, j: int|
        0 <= i < j < map.len() ==> (#[trigger] map[i]).0.upper < (#[trigger] map[j]).0.lower
    &&& forall|i: int| 0 < i < map.len() ==> #[trigger] adjacent(map, i)
}

/// An interval begins where the one before it ends.
pub open spec fn adjacent(map: Seq<Hits>, i: int) -> bool {
    map[i].0.lower == map[i - 1].0.upper + 1
}

/// Where the interval behind an end begins. Behind the largest key comes the smallest.
pub open spec fn behind(end: Key) -> Key {
    if end == Key::MAX {
        0
    } else {
        (end + 1) as Key
    }
}

/// Intervals with the given right ends, each beginning behind the one before it, with no hits
/// yet. The last one reaches to the largest key, whatever its end.
pub open spec fn hit_map(ends: Seq<Key>) -> Seq<Hits> {
    Seq::new(
        ends.len(),
        |i: int|
            (
                Interval {
                    lower: if i == 0 {
                        0
                    } else {
                        behind(ends[i - 1])
                    },
                    upper: if i == ends.len() - 1 {
                        Key::MAX
                    } else {
                        ends[i]
                    },
                },
                0usize,
            ),
    )
}

/// The keys that belong to each leaf as the separators say, with no hits yet. A tree that is a
/// single leaf has no separators to read them from, and gives none. The last leaf below an
/// inner page gets its end from the page above that; where the inner page is the last one
/// there, that is the separator before it. So on four or more levels some intervals end below
/// their beginning.
pub fn make_leaf_hits_map<const FAN_OUT: usize, const NUM_RECORDS: usize>(
    tree: &BPlusTree<FAN_OUT, NUM_RECORDS>,
) -> (map: Vec<Hits>)
    requires
        tree.wf(),
    ensures
        map@ == hit_map(tree.root().right_ends(Key::MAX, tree.levels())),
{
    let ends = tree.right_ends();
    let mut map: Vec<Hits> = Vec::new();
    let mut start: Key = 0;
    let mut i: usize = 0;
    let n: usize = ends.len();
    while i < n
        invariant
            n == ends@.len(),
            i <= n,
            start == (if i == 0 {
                0
            } else {
                behind(ends@[i - 1])
            }),
            map@ == hit_map(ends@).take(i as int),
        decreases n - i,
    {
        let upper: Key = if i == n - 1 {
            Key::MAX
        } else {
            ends[i]
        };
        map.push((Interval::new(start, upper), 0));
        assert(map@ =~= hit_map(ends@).take(i + 1));
        start = ends[i].wrapping_add(1);
        i = i + 1;
    }
    assert(hit_map(ends@).take(i as int) =~= hit_map(ends@));
    map
}

/// On two or three levels the intervals lie side by side and cover all keys, and each holds the
/// keys of one leaf.
pub proof fn law_leaf_map_covers_small_trees<const FAN_OUT: usize, const NUM_RECORDS: usize>(
    tree: &BPlusTree<FAN_OUT, NUM_RECORDS>,
)
    requires
        tree.wf(),
        2 <= tree.levels() <= 3,
    ensures
        ({
            let map = hit_map(tree.root().right_ends(Key::MAX, tree.levels()));
            &&& covers(map)
            &&& forall|i: int, key: Key|
                0 <= i < map.len() && #[trigger] map[i].0.has(key) ==> tree.fence_at(key)
                    == map[i].0.upper
        }),
{
    let ends = tree.root().right_ends(Key::MAX, tree.levels());
    let fences = tree.root().fences(Key::MAX, tree.levels());
    let map = hit_map(ends);
    tree.lemma_ends(0);
    let last = fences.len() - 1;
    assert forall|i: int| 0 <= i < last implies ends[i] == #[trigger] fences[i] by {
        assert(ends.drop_last()[i] == fences.drop_last()[i]);
    }
    assert forall|i: int| 0 <= i < map.len() implies (#[trigger] map[i]).0.upper == fences[i] by {}
    assert forall|i: int| 0 < i < map.len() implies #[trigger] adjacent(map, i) by {
        assert(ends[i - 1] == fences[i - 1]);
        assert(fences[i - 1] < fences[last]);
    }
    assert forall|i: int| 0 <= i < map.len() implies (#[trigger] map[i]).0.lower
        <= map[i].0.upper by {
        if i > 0 {
            assert(adjacent(map, i));
            assert(fences[i - 1] < fences[i]);
            assert(map[i - 1].0.upper == fences[i - 1]);
        }
    }
    assert forall|i: int, j: int| 0 <= i < j < map.len() implies (#[trigger] map[i]).0.upper < (
    #[trigger] map[j]).0.lower by {
        assert(adjacent(map, j));
        assert(map[j - 1].0.upper == fences[j - 1]);
        if i < j - 1 {
            assert(fences[i] < fences[j - 1]);
        }
    }
    assert forall|i: int, key: Key| 0 <= i < map.len() && #[trigger] map[i].0.has(
        key,
    ) implies tree.fence_at(key) == map[i].0.upper by {
        tree.lemma_ends(key);
        if i > 0 {
            assert(adjacent(map, i));
            assert(map[i - 1].0.upper == fences[i - 1]);
        }
        assert(node::between(fences, -1, i, key));
        assert(fences[i] == map[i].0.upper);
    }
}

/// Whether the intervals lie side by side and cover all keys.
pub fn is_cover(map: &Vec<Hits>) -> (r: bool)
    ensures
        r == covers(map@),
{
    let n: usize = map.len();
    if n == 0 || map[0].0.lower != 0 || map[n - 1].0.upper != Key::MAX {
        return false;
    }
    let mut i: usize = 0;
    while i < n
        invariant
            n == map@.len(),
            i <= n,
            map@[0].0.lower == 0,
            forall|k: int| 0 <= k < i ==> (#[trigger] map@[k]).0.lower <= map@[k].0.upper,
            forall|k: int, l: int|
                0 <= k < l < i ==> (#[trigger] map@[k]).0.upper < (#[trigger] map@[l]).0.lower,
            forall|k: int| 0 < k < i ==> #[trigger] adjacent(map@, k),
        decreases n - i,
    {
        if map[i].0.lower > map[i].0.upper {
            assert(!(map@[i as int].0.lower <= map@[i as int].0.upper));
            return false;
        }
        if i > 0 && (map[i - 1].0.upper == Key::MAX || map[i].0.lower != map[i - 1].0.upper + 1) {
            assert(!adjacent(map@, i as int));
            return false;
        }
        proof {
            assert forall|k: int| 0 <= k < i implies (#[trigger] map@[k]).0.upper
                < map@[i as int].0.lower by {
                if k < i - 1 {
                    assert(map@[k].0.upper < map@[i - 1].0.lower);
                    assert(map@[i - 1].0.lower <= map@[i - 1].0.upper);
                }
            }
        }
        i = i + 1;
    }
    true
}

/// Counts a key where it belongs.
pub fn leaf_hit(map: &mut Vec<Hits>, key: Key)
    requires
        covers(old(map)@),
        forall|i: int| 0 <= i < old(map)@.len() ==> (#[trigger] old(map)@[i]).1 < usize::MAX,
    ensures
        covers(final(map)@),
        final(map)@.len() == old(map)@.len(),
        forall|i: int| #![trigger final(map)@[i]]
            0 <= i < old(map)@.len() ==> {
                &&& final(map)@[i].0 == old(map)@[i].0
                &&& final(map)@[i].1 == if old(map)@[i].0.has(key) {
                    old(map)@[i].1 + 1
                } else {
                    old(map)@[i].1 as int
                }
            },
{
    let ghost before = map@;
    let mut low: usize = 0;
    let mut high: usize = map.len() - 1;
    while low < high
        invariant
            map@ == before,
            covers(before),
            low <= high < map@.len(),
            forall|i: int| 0 <= i < low ==> (#[trigger] map@[i]).0.upper < key,
            map@[high as int].0.upper >= key,
        decreases high - low,
    {
        let mid: usize = low + (high - low) / 2;
        if map[mid].0.upper < key {
            proof {
                assert forall|i: int| 0 <= i < mid + 1 implies (#[trigger] map@[i]).0.upper
                    < key by {
                    if i < mid {
                        assert(map@[i].0.upper < map@[mid as int].0.lower);
                    }
                }
            }
            low = mid + 1;
        } else {
            high = mid;
        }
    }
    proof {
        assert forall|i: int| 0 <= i < before.len() implies (#[trigger] before[i]).0.has(key) == (i
            == low) by {
            if i < low {
                assert(map@[i].0.upper < key);
            } else if i > low {
                assert(before[low as int].0.upper < before[i].0.lower);
            } else if low > 0 {
                assert(map@[low - 1].0.upper < key);
                assert(adjacent(before, i));
            }
        }
    }
    let (interval, count) = map[low];
    map.set(low, (interval, count + 1));
    proof {
        let after = map@;
        assert forall|i: int, j: int| 0 <= i < j < after.len() implies (
        #[trigger] after[i]).0.upper < (#[trigger] after[j]).0.lower by {
            assert(before[i].0.upper < before[j].0.lower);
        }
        assert forall|i: int| 0 < i < after.len() implies #[trigger] adjacent(after, i) by {
            assert(adjacent(before, i));
        }
        assert forall|i: int| 0 <= i < after.len() implies (#[trigger] after[i]).0.lower
            <= after[i].0.upper by {
            assert(before[i].0.lower <= before[i].0.upper);
        }
    }
}

/// Every key belongs to exactly one interval.
pub proof fn law_every_key_hits_one_leaf(map: Seq<Hits>, key: Key)
    requires
        covers(map),
    ensures
        exists|i: int| 0 <= i < map.len() && (#[trigger] map[i]).0.has(key),
        forall|i: int, j: int|
            0 <= i < j < map.len() ==> !((#[trigger] map[i]).0.has(key) && (
            #[trigger] map[j]).0.has(key)),
{
    lemma_some_leaf(map, key, 0);
}

/// Some interval from a position on holds the key.
proof fn lemma_some_leaf(map: Seq<Hits>, key: Key, from: int)
    requires
        covers(map),
        0 <= from < map.len(),
        map[from].0.lower <= key,
    ensures
        exists|i: int| 0 <= i < map.len() && (#[trigger] map[i]).0.has(key),
    decreases map.len() - from,
{
    if !map[from].0.has(key) {
        assert(from + 1 < map.len());
        assert(adjacent(map, from + 1));
        lemma_some_leaf(map, key, from + 1);
    }
}

/// The line of an interval in a histogram.
pub open spec fn hist_fields(hits: Hits, n: u64) -> Seq<Seq<char>> {
    seq![
        text::decimal(hits.0.lower as nat),
        text::decimal(hits.0.upper as nat),
        text::decimal(hits.1 as nat),
        text::decimal(NUM_RECORDS as nat),
        text::decimal(n as nat),
    ]
}

/// The lines of a histogram.
pub open spec fn hist_lines(map: Seq<Hits>, n: u64) -> Seq<Seq<char>> {
    map.map_values(|hits: Hits| csv::joined(hist_fields(hits, n), ","@))
}

/// Writes a histogram.
pub fn hist_text(map: &Vec<Hits>, n: u64) -> (s: String)
    ensures
        s@ == "Low,High,Count,Leaf Size,N\n"@ + csv::joined(hist_lines(map@, n), "\n"@),
{
    let mut lines: Vec<String> = Vec::new();
    let mut i: usize = 0;
    while i < map.len()
        invariant
            i <= map@.len(),
            lines@.len() == i,
            forall|k: int|
                0 <= k < i ==> (#[trigger] lines@[k])@ == csv::joined(
                    hist_fields(map@[k], n),
                    ","@,
                ),
        decreases map@.len() - i,
    {
        let (interval, hits) = map[i];
        let mut fields: Vec<String> = Vec::new();
        fields.push(text::number(interval.lower));
        fields.push(text::number(interval.upper));
        fields.push(text::number(hits as u64));
        fields.push(text::number(NUM_RECORDS as u64));
        fields.push(text::number(n));
        assert(csv::texts(fields@) =~= hist_fields(map@[i as int], n));
        lines.push(csv::join(&fields, ","));
        i = i + 1;
    }
    assert(csv::texts(lines@) =~= hist_lines(map@, n));
    let mut s = String::from_str("Low,High,Count,Leaf Size,N\n");
    s.append(csv::join(&lines, "\n").as_str());
    s
}

} // verus!
