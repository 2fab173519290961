//! What callers can rely on in the results of single calls.

use vstd::prelude::*;
use vstd::arithmetic::div_mod;
use crate::crud_model::crud_operation::CRUDOperation;
use crate::crud_model::dispatch;
use crate::locking::locking_strategy::LockingStrategy;
use crate::record_model::record_point::RecordPoint;
use crate::record_model::{Key, Payload, Version};
use crate::tree::bplus_tree;
use crate::tree::bplus_tree::BPlusTree;
use crate::utils::csv;
use crate::utils::csv::join;
use crate::utils::interval::Interval;
use crate::utils::laws as texts;
use crate::utils::text::{boolean, number, wide_number};
use crate::workload::config::{total_experiments, GroupConfig, Ratios};
use crate::workload::dispatcher::{Access, TreeDispatcher};
use crate::workload::experiment;
use crate::workload::experiment::{
    choose_scan, keys_from, next_operation, olap_totals, ran_enough, summarize, worker_action,
    OlapResult, WorkerAction, WorkerReport,
};
use crate::workload::json::{read_inserts, read_keys, write_keys, JsonFailure};
use crate::workload::keys::{dec_key, inc_key};
use crate::workload::laws;
use crate::workload::olap;
use crate::workload::olap::{
    after_scan, choose_snapshot, count_scan, may_scan, random_window, scan_bounds, scan_plan,
    scan_query, window, ControlSignal, ScanRange,
};
use crate::workload::paper;
use crate::workload::paper::{
    count_operations, dump_keys, fold_results, inserts_of, is_cover, leaf_fill, mixed_operation,
    protocols, rq_offsets, Hits,
};
use crate::workload::partition;
use crate::workload::partition::{bulk_chunks, chunks, split_work};
use crate::workload::plan;
use crate::workload::plan::{load_phases, schedule, Step};
use crate::workload::query;
use crate::workload::query::{decode_queries, UnknownOperation};
use crate::workload::query_laws;
use crate::workload::runner::RunResult;

verus! {

/// Numbers are written in decimal notation, and truth values as words.
pub proof fn law_numbers(n: u64, m: u128, b: bool, s: String, t: String, u: &'static str)
    requires
        call_ensures(number, (n,), s),
        call_ensures(wide_number, (m,), t),
        call_ensures(boolean, (b,), u),
    ensures
        texts::numeral(s@, n as int),
        texts::numeral(t@, m as int),
        b ==> u@ =~= seq!['t', 'r', 'u', 'e'],
        !b ==> u@ =~= seq!['f', 'a', 'l', 's', 'e'],
{
    texts::law_numeral_is_unique(s@, n as nat);
    texts::law_numeral_is_unique(t@, m as nat);
    texts::law_truth_values(b);
}

/// Lines that are joined of fields without commas can be told apart.
pub proof fn law_joined_lines(
    a: &Vec<String>,
    b: &Vec<String>,
    separator: &str,
    s: String,
    t: String,
)
    requires
        call_ensures(join, (a, separator), s),
        call_ensures(join, (b, separator), t),
        separator@ == seq![','],
        a@.len() > 0,
        b@.len() > 0,
        forall|i: int| 0 <= i < a@.len() ==> texts::free_of((#[trigger] a@[i])@, ','),
        forall|i: int| 0 <= i < b@.len() ==> texts::free_of((#[trigger] b@[i])@, ','),
        s@ == t@,
    ensures
        a@.len() == b@.len(),
        forall|i: int| 0 <= i < a@.len() ==> (#[trigger] a@[i])@ == b@[i]@,
{
    let (x, y) = (csv::texts(a@), csv::texts(b@));
    assert forall|i: int| 0 <= i < x.len() implies texts::free_of(#[trigger] x[i], ',') by {
        assert(x[i] == a@[i]@);
    }
    assert forall|i: int| 0 <= i < y.len() implies texts::free_of(#[trigger] y[i], ',') by {
        assert(y[i] == b@[i]@);
    }
    texts::law_lines_tell_their_fields(x, y, ',');
    assert forall|i: int| 0 <= i < a@.len() implies (#[trigger] a@[i])@ == b@[i]@ by {
        assert(x[i] == y[i]);
    }
}

/// Going to the next key and to the previous one.
pub proof fn law_neighbours(k: Key, next: Key, previous: Key)
    requires
        call_ensures(inc_key, (k,), next),
        call_ensures(dec_key, (k,), previous),
    ensures
        k < u64::MAX ==> next == k + 1,
        k == u64::MAX ==> next == k,
        k > 0 ==> previous == k - 1,
        k == 0 ==> previous == k,
{
}

/// The keys of a scan.
pub proof fn law_scan_bounds(upper: Key, latest: Key, fixed: Interval, behind: Interval, k: Key)
    requires
        call_ensures(scan_bounds, (ScanRange::Fixed(upper),), fixed),
        call_ensures(scan_bounds, (ScanRange::Behind(latest),), behind),
    ensures
        fixed.lower <= k <= fixed.upper <==> k <= upper,
        behind.lower <= k <= behind.upper <==> k <= latest <= k + 1000,
{
}

/// A scan of a snapshot is a range query of the keys of the scan.
pub proof fn law_scan_queries(
    range: ScanRange,
    snapshot: Version,
    interval: Interval,
    operation: CRUDOperation,
)
    requires
        call_ensures(scan_bounds, (range,), interval),
        call_ensures(scan_query, (range, snapshot), operation),
    ensures
        operation == CRUDOperation::Range(interval, snapshot),
{
}

/// There is something to scan as soon as the clock has moved on from its start, which is one.
/// Scans read the current snapshot where that is fixed, and otherwise one that was current.
pub proof fn law_snapshots(fixed: bool, current: Version, r: bool, snapshot: Version)
    requires
        call_ensures(may_scan, (current,), r),
        call_ensures(choose_snapshot, (fixed, current), snapshot),
        current >= 1,
    ensures
        r <==> current > 1,
        1 <= snapshot <= current,
        fixed ==> snapshot == current,
{
}

/// A scan counts the keys that point queries of its snapshot show.
pub proof fn law_scans_count<const FAN_OUT: usize, const NUM_RECORDS: usize>(
    tree: &BPlusTree<FAN_OUT, NUM_RECORDS>,
    upper: Key,
    snapshot: Version,
    count: usize,
)
    requires
        call_ensures(
            count_scan::<FAN_OUT, NUM_RECORDS>,
            (tree, ScanRange::Fixed(upper), snapshot),
            count,
        ),
    ensures
        count == laws::shown_keys(tree@, 0, upper, snapshot).len(),
{
    let out = choose|out: Seq<RecordPoint<Key, Payload>>|
        #[trigger] bplus_tree::scanned(
            tree@.records,
            olap::bounds(ScanRange::Fixed(upper)),
            snapshot,
            out,
        ) && count == out.len();
    laws::law_scans_count_the_shown_keys(tree@, 0, upper, snapshot, out);
}

/// The keys of all records that are left are those that point queries of the last snapshot show,
/// in ascending order.
pub proof fn law_dumps<const FAN_OUT: usize, const NUM_RECORDS: usize>(
    tree: &BPlusTree<FAN_OUT, NUM_RECORDS>,
    dump: (usize, Vec<Key>),
)
    requires
        call_ensures(dump_keys::<FAN_OUT, NUM_RECORDS>, (tree,), dump),
    ensures
        forall|k: Key| #[trigger]
            dump.1@.contains(k) <==> dispatch::point_answer(tree@, k, (u64::MAX - 1) as Version)
                is Some,
        forall|i: int, j: int| 0 <= i < j < dump.1@.len() ==> dump.1@[i] < dump.1@[j],
{
    let records = choose|
        records: Seq<RecordPoint<Key, Payload>>,
    | #[trigger]
        bplus_tree::scanned(
            tree@.records,
            Interval { lower: 0, upper: Key::MAX },
            paper::VERSION_STAR,
            records,
        ) && dump.1@ == paper::keys_of(records);
    let shown = laws::shown_keys(tree@, 0, u64::MAX, paper::VERSION_STAR);
    laws::law_scans_count_the_shown_keys(tree@, 0, u64::MAX, paper::VERSION_STAR, records);
    assert forall|k: Key| #[trigger] dump.1@.contains(k) <==> dispatch::point_answer(
        tree@,
        k,
        (u64::MAX - 1) as Version,
    ) is Some by {
        assert(dump.1@.to_set().contains(k) <==> shown.contains(k));
    }
}

/// Scans that nobody controls count on, those under control do not count, and they are over when
/// they are told so.
pub proof fn law_after_scan(done: usize, signal: ControlSignal, next: Option<usize>)
    requires
        call_ensures(after_scan, (done, signal), next),
        done < usize::MAX,
    ensures
        next is None <==> signal is Disconnected,
        signal is Absent ==> next->0 == done + 1,
        signal is Open ==> next->0 == done,
{
}

/// A window holds its start and as many keys more as it is wide, all of them below the number of
/// keys where there is room for them behind the start.
pub proof fn law_windows(start: Key, width: Key, keys: Key, interval: Interval)
    requires
        call_ensures(window, (start, width, keys), interval),
        start + width <= u64::MAX,
        start + width >= keys ==> start >= width,
    ensures
        interval.upper - interval.lower == width,
        start + width < keys ==> interval.lower == start,
        start + width >= keys ==> interval.upper == start,
{
}

/// A random window is as wide as asked for and holds only keys below their number.
pub proof fn law_random_windows(width: Key, keys: Key, interval: Interval)
    requires
        call_ensures(random_window, (width, keys), interval),
        0 < keys,
        2 * width <= keys,
        keys + width <= u64::MAX,
    ensures
        interval.upper - interval.lower == width,
        interval.upper < keys,
{
}

/// Scans whose snapshots are spread over all that were current are as far apart as fits, and one
/// more follows if that leaves a rest. The others are as many as asked for.
pub proof fn law_scan_plans(spread: bool, current: Version, scans: u64, plan: (u64, Version))
    requires
        call_ensures(scan_plan, (spread, current, scans), plan),
        0 < scans < u64::MAX,
    ensures
        plan.1 * scans <= current < plan.1 * scans + scans,
        !spread ==> plan.0 + 1 == scans,
        spread && plan.1 * scans == current ==> plan.0 == scans,
        spread && plan.1 * scans < current ==> plan.0 == scans + 1,
{
    let (c, s) = (current as int, scans as int);
    assert(c / s * s <= c < c / s * s + s && (c % s == 0 <==> c / s * s == c))
        by (nonlinear_arith)
        requires
            s > 0,
            c >= 0,
    ;
}

/// As many keys as asked for, from a key on.
pub proof fn law_keys_from(key: Key, count: u64, interval: Interval, k: Key)
    requires
        call_ensures(keys_from, (key, count), interval),
        key + count <= u64::MAX,
    ensures
        interval.lower <= k <= interval.upper <==> key <= k < key + count,
{
    assert(interval.has(k) <==> key <= k < key + count);
}

/// A draw stands for an insertion, a point query, a range query, a deletion or an update, each
/// for as many draws in a row as its ratio says. All are about the key, reads are of the
/// snapshot, writers write zero, and ranges are as long as asked for or end with the largest key.
pub proof fn law_drawn_operations(
    draw: usize,
    ratios: &Ratios,
    range_size: u64,
    key: Key,
    snapshot: Version,
    operation: CRUDOperation,
    k: Key,
)
    requires
        call_ensures(next_operation, (draw, ratios, range_size, key, snapshot), operation),
        ratios.insert + ratios.point_reads + ratios.range_reads + ratios.delete <= usize::MAX,
    ensures
        ({
            let points = ratios.insert as int;
            let ranges = points + ratios.point_reads;
            let deletes = ranges + ratios.range_reads;
            let updates = deletes + ratios.delete;
            &&& draw < points ==> operation == CRUDOperation::Insert(key, 0)
            &&& points <= draw < ranges ==> operation == CRUDOperation::Point(key, snapshot)
            &&& ranges <= draw < deletes ==> {
                &&& operation matches CRUDOperation::Range(interval, version)
                &&& version == snapshot
                &&& interval.lower <= k <= interval.upper <==> key <= k && (k < key + range_size
                    || key + range_size >= u64::MAX)
            }
            &&& deletes <= draw < updates ==> operation == CRUDOperation::Delete(key)
            &&& updates <= draw ==> operation == CRUDOperation::Update(key, 0)
        }),
{
    laws::law_draws(draw, *ratios);
    if let CRUDOperation::Range(interval, version) = operation {
        assert(Key::MAX - range_size > key ==> (interval.has(k) <==> key <= k < key + range_size));
    }
}

/// A worker stops if and only if it is told to, and otherwise sleeps if and only if there is
/// nothing to draw. An experiment is over as soon as its target is reached.
pub proof fn law_workers(
    disconnected: bool,
    is_nop: bool,
    action: WorkerAction,
    total: usize,
    target: usize,
    enough: bool,
)
    requires
        call_ensures(worker_action, (disconnected, is_nop), action),
        call_ensures(ran_enough, (total, target), enough),
    ensures
        action is Stop <==> disconnected,
        action is Sleep <==> !disconnected && is_nop,
        action is Execute <==> !disconnected && !is_nop,
        enough <==> target <= total,
{
}

/// A summary of one worker is its report, and no worker took longer than a summary says.
pub proof fn law_summaries(reports: &Vec<WorkerReport>, summary: WorkerReport, i: int)
    requires
        call_ensures(summarize, (reports,), summary),
        0 <= i < reports@.len(),
    ensures
        reports@[i].1 <= summary.1,
        exists|j: int| 0 <= j < reports@.len() && (#[trigger] reports@[j]).1 == summary.1,
        reports@.len() == 1 ==> summary == reports@[0],
{
    laws::law_slowest_is_the_longest_time(reports@);
    laws::law_reports_add_up(reports@, Seq::empty());
}

/// The snapshots of scans are told in millions and their sleep as an average, both rounded down.
pub proof fn law_scan_totals(
    results: &Vec<OlapResult>,
    workers: u64,
    scans: u64,
    totals: (u64, u64),
)
    requires
        call_ensures(olap_totals, (results, workers, scans), totals),
        workers > 0,
        scans > 0,
    ensures
        ({
            let snapshots = experiment::snapshot_sum(results@);
            let slept = experiment::sleep_sum(results@);
            &&& totals.0 * 1_000_000 <= snapshots < totals.0 * 1_000_000 + 1_000_000
            &&& totals.1 * (workers * scans) <= slept < (totals.1 + 1) * (workers * scans)
        }),
{
    let n = experiment::sleep_sum(results@) as int;
    let (w, s) = (workers as int, scans as int);
    div_mod::lemma_div_denominator(n, w, s);
    let p = w * s;
    assert(p > 0) by (nonlinear_arith)
        requires
            p == w * s,
            w > 0,
            s > 0,
    ;
    assert((n / p) * p <= n < (n / p + 1) * p) by (nonlinear_arith)
        requires
            p > 0,
            n >= 0,
    ;
}

/// A choice of a scan beside an experiment is a snapshot that was current and a key below `n`.
pub proof fn law_chosen_scans(current: Version, n: u64, choice: (Version, Key))
    requires
        call_ensures(choose_scan, (current, n), choice),
        n > 0,
    ensures
        choice.0 <= current,
        choice.1 < n,
{
}

/// Chunks part the transactions in their order.
pub proof fn law_chunks(
    operations: &[CRUDOperation],
    size: usize,
    parts: Vec<Vec<CRUDOperation>>,
    i: int,
)
    requires
        call_ensures(chunks, (operations, size), parts),
        size > 0,
    ensures
        laws::gathered(parts@) == operations@,
        0 <= i < parts@.len() ==> 1 <= parts@[i]@.len() <= size,
        0 <= i < parts@.len() - 1 ==> parts@[i]@.len() == size,
{
    laws::law_chunks_part_the_transactions(operations@, size as int, parts@);
}

/// How many transactions some workers got.
pub open spec fn handed_out(work: Seq<Vec<CRUDOperation>>) -> nat
    decreases work.len(),
{
    if work.len() == 0 {
        0
    } else {
        handed_out(work.drop_last()) + work.last()@.len()
    }
}

/// Slices of equal length add up.
proof fn lemma_handed_out(work: Seq<Vec<CRUDOperation>>, n: int, size: int)
    requires
        1 <= n <= work.len(),
        forall|i: int| 0 < i < work.len() ==> (#[trigger] work[i])@.len() == size,
    ensures
        handed_out(work.take(n)) == work[0]@.len() + (n - 1) * size,
    decreases n,
{
    reveal_with_fuel(handed_out, 2);
    assert(work.take(n).drop_last() =~= work.take(n - 1));
    assert(work.take(n).last() == work[n - 1]);
    if n == 1 {
        assert(work.take(0).len() == 0);
        assert(0 * size == 0);
    } else {
        lemma_handed_out(work, n - 1, size);
        assert((n - 1) * size == (n - 2) * size + size) by (nonlinear_arith);
    }
}

/// Work is split evenly and without loss: every worker but the first gets the same number of
/// transactions, the first gets no fewer and less than one for each worker more, every
/// transaction is handed to someone, and all together get as many as there are.
pub proof fn law_split_work(
    operations: &[CRUDOperation],
    workers: usize,
    work: Vec<Vec<CRUDOperation>>,
    i: int,
    at: int,
)
    requires
        call_ensures(split_work, (operations, workers), work),
        workers > 0,
        0 < i < workers,
        0 <= at < operations@.len(),
    ensures
        work@.len() == workers,
        work@[i]@.len() <= work@[0]@.len() < work@[i]@.len() + workers,
        handed_out(work@) == operations@.len(),
        exists|w: int, k: int|
            0 <= w < workers && 0 <= k < work@[w]@.len() && #[trigger] work@[w]@[k]
                == operations@[at],
{
    let (l, w) = (operations@.len() as int, workers as int);
    let slice = l / w;
    assert(0 <= slice && w * slice <= l < w * slice + w) by (nonlinear_arith)
        requires
            w > 0,
            l >= 0,
            slice == l / w,
    ;
    assert(slice <= w * slice) by (nonlinear_arith)
        requires
            w > 0,
            slice >= 0,
    ;
    assert forall|j: int| 0 < j < work@.len() implies (#[trigger] work@[j])@.len() == slice by {
        assert(partition::is_slice(operations@, slice, j, work@[j]@));
        laws::law_slices_follow_each_other(operations@, slice, j, work@[j]@, 0);
    }
    assert(work@[i]@.len() == slice);
    lemma_handed_out(work@, w, slice);
    assert(work@.take(w) =~= work@);
    assert((w - 1) * slice == w * slice - slice) by (nonlinear_arith);
    partition::law_split_is_complete(operations@, w, work@, at);
}

/// Bulks are the first chunks, one for each worker; the first worker gets the last chunk on top
/// if there are more chunks than workers.
pub proof fn law_bulk_chunks(
    operations: &[CRUDOperation],
    workers: usize,
    size: usize,
    parts: Vec<Vec<CRUDOperation>>,
    work: Vec<Vec<CRUDOperation>>,
    i: int,
)
    requires
        0 < workers <= operations@.len(),
        size == operations@.len() as int / workers as int,
        call_ensures(chunks, (operations, size), parts),
        call_ensures(bulk_chunks, (operations, workers), work),
        0 < i < workers,
    ensures
        work@.len() == workers,
        parts@.len() >= workers,
        work@[i]@ == parts@[i]@,
        work@[0]@ == if parts@.len() > workers {
            parts@[0]@ + parts@[parts@.len() - 1]@
        } else {
            parts@[0]@
        },
{
    let (l, w) = (operations@.len() as int, workers as int);
    let z = l / w;
    assert(1 <= z <= l && w * z <= l) by (nonlinear_arith)
        requires
            w > 0,
            l >= w,
            z == l / w,
    ;
    let n = parts@.len() as int;
    laws::law_chunk_count(l, z);
    assert(n >= w) by (nonlinear_arith)
        requires
            z > 0,
            w * z <= l,
            l <= n * z,
    ;
    assert((i + 1) * z <= w * z && 0 * z == 0 && (0 + 1) * z == z && (i + 1) * z == i * z + z && z
        <= w * z) by (nonlinear_arith)
        requires
            i + 1 <= w,
            w >= 1,
            z > 0,
    ;
    assert(partition::is_chunk(operations@, z, i, parts@[i]@));
    assert(partition::is_slice(operations@, z, i, work@[i]@));
    assert(partition::is_chunk(operations@, z, 0, parts@[0]@));
    assert(partition::is_chunk(operations@, z, n - 1, parts@[n - 1]@));
    assert((n - 1 + 1) * z == n * z) by (nonlinear_arith);
    if n > w {
        assert(parts@[n - 1]@ =~= operations@.skip((n - 1) * z));
    }
    assert(work@[0]@ =~= if n > w {
        parts@[0]@ + parts@[n - 1]@
    } else {
        parts@[0]@
    });
}

/// An insertion of each key, in the order of the keys, that writes zero.
pub proof fn law_inserts(keys: &[Key], operations: Vec<CRUDOperation>, i: int)
    requires
        call_ensures(inserts_of, (keys,), operations),
    ensures
        operations@.len() == keys@.len(),
        0 <= i < keys@.len() ==> operations@[i] == CRUDOperation::Insert(keys@[i], 0),
{
}

/// The strategies that are compared, the widths of range queries and the fill of leaves.
pub proof fn law_comparisons(
    strategies: Vec<LockingStrategy>,
    offsets: Vec<u64>,
    n: usize,
    fill: (usize, usize, usize, usize),
)
    requires
        call_ensures(protocols, (), strategies),
        call_ensures(rq_offsets, (), offsets),
        call_ensures(leaf_fill, (n,), fill),
    ensures
        strategies@.len() == 2,
        strategies@[0] == (LockingStrategy::ORWC { attempts: 4 }),
        strategies@[1] == LockingStrategy::OLC,
        offsets@.len() == 3,
        offsets@[0] == fill.1 + 1,
        offsets@[1] == 16 * offsets@[0],
        offsets@[2] == 128 * offsets@[0],
        2 * fill.0 == fill.1,
        fill.2 == 128,
        fill.3 * fill.2 <= n < fill.3 * fill.2 + fill.2,
{
}

/// A transaction of a mixed workload is an update that writes zero, a range query that reaches as
/// far behind the key as asked for, or as far before it where keys end, or a point query.
pub proof fn law_mixed_operations(
    update: bool,
    range: bool,
    key: Key,
    offset: Key,
    operation: CRUDOperation,
)
    requires
        call_ensures(mixed_operation, (update, range, key, offset), operation),
        !update && range && key + offset > u64::MAX ==> offset <= key,
    ensures
        operation is Update <==> update,
        operation is Range <==> !update && range,
        operation is Point <==> !update && !range,
        operation matches CRUDOperation::Update(k, payload) ==> k == key && payload == 0,
        operation matches CRUDOperation::Point(k, version) ==> k == key && version == u64::MAX,
        operation matches CRUDOperation::Range(interval, version) ==> {
            &&& version == u64::MAX - 1
            &&& interval.upper - interval.lower == offset
            &&& if key + offset <= u64::MAX {
                interval.lower == key
            } else {
                interval.upper == key
            }
        },
{
}

/// Queries are counted by their kinds.
pub proof fn law_counts(operations: &[CRUDOperation], counts: (usize, usize, usize))
    requires
        call_ensures(count_operations, (operations,), counts),
    ensures
        counts.0 + counts.1 + counts.2 == operations@.len(),
        operations@.len() == 1 ==> (counts.0 == 1 <==> operations@[0] is Point) && (counts.1 == 1
            <==> operations@[0] is Range),
{
    laws::law_queries_are_counted(operations@, Seq::empty());
}

/// The total of one worker is its result.
pub proof fn law_folded_results(results: &Vec<RunResult>, total: (u64, usize))
    requires
        call_ensures(fold_results, (results,), total),
        results@.len() == 1,
    ensures
        total.0 == results@[0].errors,
        total.1 == results@[0].node_visits,
{
    laws::law_results_add_up(results@, Seq::empty());
}

/// A map is a cover if and only if it begins with the smallest key, ends with the largest, and
/// its intervals are not empty and lie side by side.
pub proof fn law_is_cover(map: &Vec<Hits>, r: bool)
    requires
        call_ensures(is_cover, (map,), r),
    ensures
        r <==> {
            &&& map@.len() > 0
            &&& map@[0].0.lower == 0
            &&& map@[map@.len() - 1].0.upper == u64::MAX
            &&& forall|i: int|
                0 <= i < map@.len() ==> (#[trigger] map@[i]).0.lower <= map@[i].0.upper
            &&& forall|i: int|
                0 < i < map@.len() ==> (#[trigger] map@[i]).0.lower == map@[i - 1].0.upper + 1
        },
{
    if r {
        assert forall|i: int| 0 < i < map@.len() implies (#[trigger] map@[i]).0.lower == map@[i
            - 1].0.upper + 1 by {
            assert(paper::adjacent(map@, i));
        }
    } else if map@.len() > 0 && map@[0].0.lower == 0 && map@[map@.len() - 1].0.upper == u64::MAX
        && (forall|i: int|
        0 <= i < map@.len() ==> (#[trigger] map@[i]).0.lower <= map@[i].0.upper) && (forall|
        i: int,
    |
        0 < i < map@.len() ==> (#[trigger] map@[i]).0.lower == map@[i - 1].0.upper + 1) {
        laws::law_covers(map@);
    }
}

/// A plan holds each step of each group once, in order.
pub proof fn law_schedules(groups: &Vec<GroupConfig>, steps: Vec<Step>, n: usize, step: Step)
    requires
        call_ensures(schedule, (groups,), steps),
        call_ensures(total_experiments, (groups,), n),
        forall|i: int|
            0 <= i < groups@.len() ==> (#[trigger] groups@[i]).chain_groups@.len() < usize::MAX,
    ensures
        steps@.len() == n,
        steps@.contains(step) <==> step.0 < groups@.len() && step.1
            <= groups@[step.0 as int].chain_groups@.len(),
        forall|i: int, j: int|
            0 <= i < j < steps@.len() ==> laws::runs_before(steps@[i], steps@[j]),
{
    assert(groups.len() == groups@.len());
    laws::law_steps_are_in_order(groups@);
    plan::law_steps_are_experiments(groups@);
}

/// A load inserts, then updates, then deletes.
pub proof fn law_loads(
    inserted: &[Key],
    updated: &[Key],
    deleted: &[Key],
    operations: Vec<CRUDOperation>,
    i: int,
)
    requires
        call_ensures(load_phases, (inserted, updated, deleted), operations),
    ensures
        ({
            let (u, d) = (inserted@.len() as int, inserted@.len() + updated@.len());
            &&& operations@.len() == d + deleted@.len()
            &&& 0 <= i < u ==> operations@[i] == CRUDOperation::Insert(inserted@[i], inserted@[i])
            &&& u <= i < d ==> operations@[i] == CRUDOperation::Update(updated@[i - u], 0)
            &&& d <= i < d + deleted@.len() ==> operations@[i] == CRUDOperation::Delete(
                deleted@[i - d],
            )
        }),
{
    laws::law_phases_of_a_load(inserted@, updated@, deleted@, i);
}

/// Ratios are complete if they share out a hundred draws, and empty if they share out none.
pub proof fn law_complete_ratios(ratios: &Ratios, complete: bool, nop: bool)
    requires
        call_ensures(Ratios::is_complete, (ratios,), complete),
        call_ensures(Ratios::is_nop, (ratios,), nop),
    ensures
        complete <==> ratios.insert + ratios.update + ratios.delete + ratios.point_reads
            + ratios.range_reads == 100,
        nop <==> ratios.insert == 0 && ratios.update == 0 && ratios.delete == 0
            && ratios.point_reads == 0 && ratios.range_reads == 0,
{
}

/// A configuration reads only, writes only or does both, by its ratios. It is valid unless only
/// one thread may write, there are none or several, and these may write or do not share out a
/// hundred draws.
pub proof fn law_configs(
    config: &GroupConfig,
    read_only: bool,
    write_only: bool,
    mixed: bool,
    valid: bool,
)
    requires
        call_ensures(GroupConfig::is_read_only, (config,), read_only),
        call_ensures(GroupConfig::is_write_only, (config,), write_only),
        call_ensures(GroupConfig::is_mix_read_write, (config,), mixed),
        call_ensures(GroupConfig::is_valid, (config,), valid),
    ensures
        ({
            let r = config.init.ratios;
            &&& read_only <==> r.insert + r.update + r.delete == 0
            &&& write_only <==> r.point_reads + r.range_reads == 0
            &&& mixed <==> r.insert + r.update + r.delete > 0 && r.point_reads + r.range_reads > 0
            &&& !valid <==> config.protocol is MonoWriter && config.init.threads != 1 && !(
            config.init.threads > 1 && read_only && r.point_reads + r.range_reads == 100)
        }),
{
}

/// A transaction on a tree that is shared as it is needs no lock. Behind a lock, readers share
/// the tree and the others have it for themselves.
pub proof fn law_accesses(tree: &TreeDispatcher, operation: &CRUDOperation, access: Access)
    requires
        call_ensures(TreeDispatcher::access, (tree, operation), access),
    ensures
        access is Free <==> tree is Ref,
        tree is Wrapper ==> (access is Shared <==> (operation is Point || operation is Range
            || operation is PeekMin || operation is PeekMax)),
{
}

/// A query file whose transactions are all known is read in full, and one with an unknown tag is
/// refused at the first such tag.
pub proof fn law_query_files(
    bytes: &[u8],
    queries: Result<Vec<CRUDOperation>, UnknownOperation>,
    n: nat,
    i: int,
    tag: int,
    key: Key,
)
    requires
        call_ensures(decode_queries, (bytes,), queries),
        9 * n <= bytes@.len() < 9 * n + 9,
        0 <= i < n,
        query_laws::written(bytes@, 9 * i, tag, key),
    ensures
        queries matches Ok(operations) ==> {
            &&& operations@.len() == n
            &&& tag <= 2
            &&& tag == 0 ==> operations@[i] == CRUDOperation::Insert(key, 0)
            &&& tag == 1 ==> operations@[i] == CRUDOperation::Update(key, 0)
            &&& tag == 2 ==> operations@[i] == CRUDOperation::Delete(key)
        },
        queries matches Err(e) ==> {
            &&& e.position < n
            &&& e.tag == bytes@[9 * e.position] && e.tag > 2
            &&& i < e.position ==> tag <= 2
        },
{
    query_laws::law_written_queries_are_read_back(bytes@, n, i, tag, key);
    query_laws::law_query_files_hold_queries(bytes@, i);
    match queries {
        Ok(operations) => {
            assert(query::query_at(bytes@, i) == Some(operations@[i]));
        },
        Err(e) => {
            query_laws::law_query_files_hold_queries(bytes@, e.position as int);
        },
    }
}

/// A list of keys that was written is read back, as keys and as insertions that write zero.
pub proof fn law_key_lists(
    keys: &[Key],
    bytes: Vec<u8>,
    slice: &[u8],
    back: Result<Vec<Key>, JsonFailure>,
    inserts: Result<Vec<CRUDOperation>, JsonFailure>,
)
    requires
        call_ensures(write_keys, (keys,), bytes),
        slice@ == bytes@,
        call_ensures(read_keys, (slice,), back),
        call_ensures(read_inserts, (slice,), inserts),
    ensures
        back matches Ok(list) && list@ == keys@,
        inserts matches Ok(list) && list@.len() == keys@.len() && forall|i: int|
            0 <= i < keys@.len() ==> #[trigger] list@[i] == CRUDOperation::Insert(keys@[i], 0),
{
}

} // verus!
