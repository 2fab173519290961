//! Running experiments and telling what came of them.

use vstd::prelude::*;
use vstd::string::*;
use crate::crud_model::crud_operation::CRUDOperation;
use crate::crud_model::crud_operation_result::CRUDOperationResult;
use crate::locking::locking_strategy::LockingStrategy;
use crate::random::random_between;
use crate::record_model::v_record_point::VersionIndexType;
use crate::record_model::{Key, Payload, Version};
use crate::tree::bplus_tree::BPlusTree;
use crate::utils::count;
use crate::utils::csv;
use crate::utils::interval::Interval;
use crate::utils::text;
use crate::workload::config::{ClockType, GroupConfig, Ratios, SubGroupConfig};

verus! {

/// What is told to have been measured.
pub const SYSTEM_STR: &'static str = "B+Tree";

/// The head of the lines of all steps.
pub fn experiments_header() -> (line: &'static str)
    ensures
        line@
            == "main_index,experiment_id,chain_id,tx_target,tx_executed,tx_success,tx_fail,time,protocol,mvb_version_index,clock,skew,skew_n,gc_enable,threads,insert_ratio,update_ratio,delete_ratio,point_reads_ratio,range_reads_ratio,range_size,log_height,actual_height,blocks_allocated,blocks_reused,olaps_total_time,olaps_workers,olaps_per_worker,olaps_avg_sleep_time,olaps_joint_workload,total_running_time"@,
{
    "main_index,experiment_id,chain_id,tx_target,tx_executed,tx_success,tx_fail,time,protocol,mvb_version_index,clock,skew,skew_n,gc_enable,threads,insert_ratio,update_ratio,delete_ratio,point_reads_ratio,range_reads_ratio,range_size,log_height,actual_height,blocks_allocated,blocks_reused,olaps_total_time,olaps_workers,olaps_per_worker,olaps_avg_sleep_time,olaps_joint_workload,total_running_time"
}

/// The head of a file of the scans beside a step.
pub fn scans_header() -> (line: &'static str)
    ensures
        line@ == "target_snapshot,current_snapshot,sleep_time,range_end,count_results,latency\n"@,
{
    "target_snapshot,current_snapshot,sleep_time,range_end,count_results,latency\n"
}

/// The payload that experiments give to all records.
pub const PAYLOAD: Payload = 0;

/// Some number below a hundred.
pub fn draw() -> (n: usize)
    ensures
        n < 100,
{
    random_between(0, 99) as usize
}

/// As many keys as asked for, from a key on.
pub fn keys_from(key: Key, count: u64) -> (interval: Interval)
    requires
        key + count <= Key::MAX,
    ensures
        forall|k: Key| interval.has(k) <==> key <= k < key + count,
        count > 0 ==> interval == (Interval { lower: key, upper: (key + count - 1) as Key }),
{
    if count == 0 {
        Interval::new(1, 0)
    } else {
        Interval::new(key, key + count - 1)
    }
}

/// Which kind of transaction a draw stands for.
pub enum Draw {
    Insert,
    PointRead,
    RangeRead,
    Delete,
    Update,
}

/// Which kind of transaction a draw stands for: each kind has as many draws as its ratio says,
/// and updates have the rest.
pub open spec fn drawn(draw: usize, ratios: Ratios) -> Draw {
    if draw < ratios.insert {
        Draw::Insert
    } else if draw < ratios.insert + ratios.point_reads {
        Draw::PointRead
    } else if draw < ratios.insert + ratios.point_reads + ratios.range_reads {
        Draw::RangeRead
    } else if draw < ratios.insert + ratios.point_reads + ratios.range_reads + ratios.delete {
        Draw::Delete
    } else {
        Draw::Update
    }
}

/// The transaction that a draw stands for. Reads are of the given snapshot, and ranges end
/// with the largest key at the latest.
pub fn next_operation(
    draw: usize,
    ratios: &Ratios,
    range_size: u64,
    key: Key,
    snapshot: Version,
) -> (operation: CRUDOperation)
    requires
        ratios.insert + ratios.point_reads + ratios.range_reads + ratios.delete <= usize::MAX,
    ensures
        match drawn(draw, *ratios) {
            Draw::Insert => operation == CRUDOperation::Insert(key, PAYLOAD),
            Draw::PointRead => operation == CRUDOperation::Point(key, snapshot),
            Draw::RangeRead => {
                &&& operation matches CRUDOperation::Range(interval, version)
                &&& version == snapshot
                &&& if Key::MAX - range_size <= key {
                    interval == (Interval { lower: key, upper: Key::MAX })
                } else {
                    forall|k: Key| interval.has(k) <==> key <= k < key + range_size
                }
            },
            Draw::Delete => operation == CRUDOperation::Delete(key),
            Draw::Update => operation == CRUDOperation::Update(key, PAYLOAD),
        },
{
    if draw < ratios.insert {
        CRUDOperation::Insert(key, PAYLOAD)
    } else if draw < ratios.insert + ratios.point_reads {
        CRUDOperation::Point(key, snapshot)
    } else if draw < ratios.insert + ratios.point_reads + ratios.range_reads {
        if Key::MAX - range_size <= key {
            CRUDOperation::Range(Interval::new(key, Key::MAX), snapshot)
        } else {
            CRUDOperation::Range(keys_from(key, range_size), snapshot)
        }
    } else if draw < ratios.insert + ratios.point_reads + ratios.range_reads + ratios.delete {
        CRUDOperation::Delete(key)
    } else {
        CRUDOperation::Update(key, PAYLOAD)
    }
}

/// What a worker does next.
#[derive(Clone, Copy, Debug, PartialEq, Eq, Structural)]
pub enum WorkerAction {
    Stop,
    Sleep,
    Execute,
}

/// What a worker does next: it stops when it is told to, and sleeps if there is nothing to
/// draw.
pub fn worker_action(disconnected: bool, is_nop: bool) -> (action: WorkerAction)
    ensures
        action == (if disconnected {
            WorkerAction::Stop
        } else if is_nop {
            WorkerAction::Sleep
        } else {
            WorkerAction::Execute
        }),
{
    if disconnected {
        WorkerAction::Stop
    } else if is_nop {
        WorkerAction::Sleep
    } else {
        WorkerAction::Execute
    }
}

/// Whether an experiment has run as many transactions as asked for.
pub fn ran_enough(total: usize, target: usize) -> (r: bool)
    ensures
        r == (total >= target),
{
    total >= target
}

/// What came of the transactions of a worker.
#[derive(Clone, Copy, Debug, PartialEq, Eq, Structural)]
pub struct Tally {
    pub success: usize,
    pub error: usize,
}

impl Tally {
    /// Nothing yet.
    pub fn new() -> (tally: Self)
        ensures
            tally == (Tally { success: 0, error: 0 }),
    {
        Tally { success: 0, error: 0 }
    }

    /// Counts a transaction.
    pub fn record(&mut self, result: &CRUDOperationResult)
        requires
            old(self).success < usize::MAX,
            old(self).error < usize::MAX,
        ensures
            *final(self) == (if *result is Error {
                Tally { success: old(self).success, error: (old(self).error + 1) as usize }
            } else {
                Tally { success: (old(self).success + 1) as usize, error: old(self).error }
            }),
    {
        match result {
            CRUDOperationResult::Error => {
                self.error = self.error + 1;
            },
            _ => {
                self.success = self.success + 1;
            },
        }
    }
}

/// What a worker reports: its tally, and the time that it took.
pub type WorkerReport = (Tally, u128);

/// All successes.
pub open spec fn successes(reports: Seq<WorkerReport>) -> nat
    decreases reports.len(),
{
    if reports.len() == 0 {
        0
    } else {
        successes(reports.drop_last()) + reports.last().0.success as nat
    }
}

/// All errors.
pub open spec fn errors(reports: Seq<WorkerReport>) -> nat
    decreases reports.len(),
{
    if reports.len() == 0 {
        0
    } else {
        errors(reports.drop_last()) + reports.last().0.error as nat
    }
}

/// The time of the slowest.
pub open spec fn slowest(reports: Seq<WorkerReport>) -> nat
    decreases reports.len(),
{
    if reports.len() == 0 {
        0
    } else {
        let before = slowest(reports.drop_last());
        if reports.last().1 > before {
            reports.last().1 as nat
        } else {
            before
        }
    }
}

/// Later reports only add.
proof fn lemma_sums_ascend(reports: Seq<WorkerReport>, n: int)
    requires
        0 <= n <= reports.len(),
    ensures
        successes(reports.take(n)) <= successes(reports),
        errors(reports.take(n)) <= errors(reports),
    decreases reports.len() - n,
{
    if n < reports.len() {
        lemma_sums_ascend(reports, n + 1);
        assert(reports.take(n + 1).drop_last() =~= reports.take(n));
    } else {
        assert(reports.take(n) =~= reports);
    }
}

/// Adds the tallies of all workers up, and takes the time of the slowest.
pub fn summarize(reports: &Vec<WorkerReport>) -> (summary: WorkerReport)
    requires
        successes(reports@) + errors(reports@) <= usize::MAX,
    ensures
        summary.0.success == successes(reports@),
        summary.0.error == errors(reports@),
        summary.1 == slowest(reports@),
{
    let mut total = Tally::new();
    let mut time: u128 = 0;
    let mut i: usize = 0;
    assert(reports@.take(0) =~= Seq::<WorkerReport>::empty());
    while i < reports.len()
        invariant
            i <= reports@.len(),
            successes(reports@) + errors(reports@) <= usize::MAX,
            total.success == successes(reports@.take(i as int)),
            total.error == errors(reports@.take(i as int)),
            time == slowest(reports@.take(i as int)),
        decreases reports@.len() - i,
    {
        proof {
            let t = reports@.take(i + 1);
            assert(t.drop_last() =~= reports@.take(i as int));
            assert(t.last() == reports@[i as int]);
            lemma_sums_ascend(reports@, i + 1);
        }
        let (tally, spent) = reports[i];
        total.success = total.success + tally.success;
        total.error = total.error + tally.error;
        if spent > time {
            time = spent;
        }
        i = i + 1;
    }
    assert(reports@.take(i as int) =~= reports@);
    (total, time)
}

/// The totals of the workers as text.
pub open spec fn totals_text(summary: WorkerReport) -> Seq<char> {
    ","@ + csv::joined(
        seq![
            text::decimal((summary.0.success + summary.0.error) as nat),
            text::decimal(summary.0.success as nat),
            text::decimal(summary.0.error as nat),
            text::decimal(summary.1 as nat),
        ],
        ","@,
    )
}

/// Writes the totals of the workers.
pub fn totals_line(summary: &WorkerReport) -> (line: String)
    requires
        summary.0.success + summary.0.error <= usize::MAX,
    ensures
        line@ == totals_text(*summary),
{
    let mut fields: Vec<String> = Vec::new();
    fields.push(text::number((summary.0.success + summary.0.error) as u64));
    fields.push(text::number(summary.0.success as u64));
    fields.push(text::number(summary.0.error as u64));
    fields.push(text::wide_number(summary.1));
    assert(csv::texts(fields@) =~= seq![
        text::decimal((summary.0.success + summary.0.error) as nat),
        text::decimal(summary.0.success as nat),
        text::decimal(summary.0.error as nat),
        text::decimal(summary.1 as nat),
    ]);
    let mut line = String::from_str(",");
    line.append(csv::join(&fields, ",").as_str());
    line
}

/// What is known of a scan that ran beside an experiment.
#[derive(Clone, Copy, Debug)]
pub struct OlapResult {
    pub snapshot: Version,
    pub range_max: Key,
    pub latency: u128,
    pub current_snapshot: Version,
    pub sleep_time: u64,
    pub count: usize,
}

impl OlapResult {
    /// The values as text.
    pub open spec fn fields(self) -> Seq<Seq<char>> {
        seq![
            text::decimal(self.snapshot as nat),
            text::decimal(self.current_snapshot as nat),
            text::decimal(self.sleep_time as nat),
            text::decimal(self.range_max as nat),
            text::decimal(self.count as nat),
            text::decimal(self.latency as nat),
        ]
    }

    /// Writes the values as a line.
    pub fn csv_line(&self) -> (line: String)
        ensures
            line@ == csv::joined(self.fields(), ","@) + "\n"@,
    {
        let mut fields: Vec<String> = Vec::new();
        fields.push(text::number(self.snapshot));
        fields.push(text::number(self.current_snapshot));
        fields.push(text::number(self.sleep_time));
        fields.push(text::number(self.range_max));
        fields.push(text::number(self.count as u64));
        fields.push(text::wide_number(self.latency));
        assert(csv::texts(fields@) =~= self.fields());
        let mut line = csv::join(&fields, ",");
        line.append("\n");
        line
    }
}

/// What a scan beside an experiment reads: any snapshot that was current, and the keys up to
/// one below `n`.
pub fn choose_scan(current: Version, n: u64) -> (choice: (Version, Key))
    requires
        n > 0,
    ensures
        choice.0 <= current,
        choice.1 < n,
{
    (random_between(0, current), random_between(0, n - 1))
}

/// The sum of the snapshots that were current when scans ran.
pub open spec fn snapshot_sum(results: Seq<OlapResult>) -> nat
    decreases results.len(),
{
    if results.len() == 0 {
        0
    } else {
        snapshot_sum(results.drop_last()) + results.last().current_snapshot as nat
    }
}

/// The sum of the times that scans slept.
pub open spec fn sleep_sum(results: Seq<OlapResult>) -> nat
    decreases results.len(),
{
    if results.len() == 0 {
        0
    } else {
        sleep_sum(results.drop_last()) + results.last().sleep_time as nat
    }
}

/// Later results only add.
proof fn lemma_olap_sums_ascend(results: Seq<OlapResult>, n: int)
    requires
        0 <= n <= results.len(),
    ensures
        snapshot_sum(results.take(n)) <= snapshot_sum(results),
        sleep_sum(results.take(n)) <= sleep_sum(results),
    decreases results.len() - n,
{
    if n < results.len() {
        lemma_olap_sums_ascend(results, n + 1);
        assert(results.take(n + 1).drop_last() =~= results.take(n));
    } else {
        assert(results.take(n) =~= results);
    }
}

/// What is told of all scans: the sum of the snapshots that were current, in millions, and the
/// average of the times that they slept, rounded down per worker and then per scan.
pub fn olap_totals(results: &Vec<OlapResult>, workers: u64, scans_per_worker: u64) -> (totals: (
    u64,
    u64,
))
    requires
        workers > 0,
        scans_per_worker > 0,
        snapshot_sum(results@) <= u64::MAX,
        sleep_sum(results@) <= u64::MAX,
    ensures
        totals.0 == snapshot_sum(results@) / 1_000_000,
        totals.1 == sleep_sum(results@) / (workers as nat) / (scans_per_worker as nat),
{
    let mut snapshots: u64 = 0;
    let mut slept: u64 = 0;
    let mut i: usize = 0;
    assert(results@.take(0) =~= Seq::<OlapResult>::empty());
    while i < results.len()
        invariant
            i <= results@.len(),
            snapshot_sum(results@) <= u64::MAX,
            sleep_sum(results@) <= u64::MAX,
            snapshots == snapshot_sum(results@.take(i as int)),
            slept == sleep_sum(results@.take(i as int)),
        decreases results@.len() - i,
    {
        proof {
            let t = results@.take(i + 1);
            assert(t.drop_last() =~= results@.take(i as int));
            assert(t.last() == results@[i as int]);
            lemma_olap_sums_ascend(results@, i + 1);
        }
        snapshots = snapshots + results[i].current_snapshot;
        slept = slept + results[i].sleep_time;
        i = i + 1;
    }
    assert(results@.take(i as int) =~= results@);
    (snapshots / 1_000_000, slept / workers / scans_per_worker)
}

/// The short name of a kind of version index in file names.
pub open spec fn prefix_text(kind: VersionIndexType) -> Seq<char> {
    match kind {
        VersionIndexType::VANILLA => "btree_ll"@,
        VersionIndexType::SkipList | VersionIndexType::SkipListSynced => "btree_sk"@,
        VersionIndexType::FrugalSkipList => "btree_fg"@,
        VersionIndexType::BTree => "btree_btree"@,
        VersionIndexType::VWEAVER => "btree_vweaver"@,
    }
}

/// The short name of a kind of version index in file names.
pub fn v_index_prefix(kind: VersionIndexType) -> (prefix: &'static str)
    ensures
        prefix@ == prefix_text(kind),
{
    match kind {
        VersionIndexType::VANILLA => "btree_ll",
        VersionIndexType::SkipList | VersionIndexType::SkipListSynced => "btree_sk",
        VersionIndexType::FrugalSkipList => "btree_fg",
        VersionIndexType::BTree => "btree_btree",
        VersionIndexType::VWEAVER => "btree_vweaver",
    }
}

/// The name of a step of an experiment: the first one, or the number of a later one.
pub open spec fn step_text(step: usize) -> Seq<char> {
    if step == 0 {
        "INIT"@
    } else {
        text::decimal(step as nat)
    }
}

/// Writes the name of a step.
fn step_name(step: usize) -> (name: String)
    ensures
        name@ == step_text(step),
{
    if step == 0 {
        String::from_str("INIT")
    } else {
        text::number(step as u64)
    }
}

/// The file that the scans beside a step of an experiment are written to.
pub fn olap_file_name(kind: VersionIndexType, experiment: usize, step: usize) -> (name: String)
    ensures
        name@ == prefix_text(kind) + "_olap_"@ + text::decimal(experiment as nat) + "_"@
            + step_text(step) + ".csv"@,
{
    let mut name = String::from_str(v_index_prefix(kind));
    name.append("_olap_");
    name.append(text::number(experiment as u64).as_str());
    name.append("_");
    name.append(step_name(step).as_str());
    name.append(".csv");
    name
}

/// How the line of a step begins.
pub fn head_line(experiment: usize, step: usize, target_tx: usize) -> (line: String)
    ensures
        line@ == csv::joined(
            seq![
                SYSTEM_STR@,
                text::decimal(experiment as nat),
                step_text(step),
                text::decimal(target_tx as nat),
            ],
            ","@,
        ),
{
    let mut fields: Vec<String> = Vec::new();
    fields.push(String::from_str(SYSTEM_STR));
    fields.push(text::number(experiment as u64));
    fields.push(step_name(step));
    fields.push(text::number(target_tx as u64));
    assert(csv::texts(fields@) =~= seq![
        SYSTEM_STR@,
        text::decimal(experiment as nat),
        step_text(step),
        text::decimal(target_tx as nat),
    ]);
    csv::join(&fields, ",")
}

/// What is told of a tree and of the scans beside a step.
#[derive(Clone, Copy, Debug)]
pub struct StepReport {
    pub log_height: usize,
    pub actual_height: usize,
    pub blocks_allocated: usize,
    pub blocks_reused: usize,
    pub olaps_total_time: u64,
    pub olaps_workers: usize,
    pub olaps_per_worker: usize,
    pub olaps_avg_sleep_time: u64,
    pub olaps_joint_workload: bool,
    pub total_running_time: u128,
}

impl StepReport {
    /// The values as text.
    pub open spec fn fields(self) -> Seq<Seq<char>> {
        seq![
            text::decimal(self.log_height as nat),
            text::decimal(self.actual_height as nat),
            text::decimal(self.blocks_allocated as nat),
            text::decimal(self.blocks_reused as nat),
            text::decimal(self.olaps_total_time as nat),
            text::decimal(self.olaps_workers as nat),
            text::decimal(self.olaps_per_worker as nat),
            text::decimal(self.olaps_avg_sleep_time as nat),
            text::truth(self.olaps_joint_workload),
            text::decimal(self.total_running_time as nat),
        ]
    }

    /// Writes the values with commas between them.
    pub fn to_string(&self) -> (s: String)
        ensures
            s@ == csv::joined(self.fields(), ","@),
    {
        let mut fields: Vec<String> = Vec::new();
        fields.push(text::number(self.log_height as u64));
        fields.push(text::number(self.actual_height as u64));
        fields.push(text::number(self.blocks_allocated as u64));
        fields.push(text::number(self.blocks_reused as u64));
        fields.push(text::number(self.olaps_total_time));
        fields.push(text::number(self.olaps_workers as u64));
        fields.push(text::number(self.olaps_per_worker as u64));
        fields.push(text::number(self.olaps_avg_sleep_time));
        fields.push(String::from_str(text::boolean(self.olaps_joint_workload)));
        fields.push(text::wide_number(self.total_running_time));
        assert(csv::texts(fields@) =~= self.fields());
        csv::join(&fields, ",")
    }
}

/// How the line of the first step of an experiment ends.
pub fn init_tail_line(config: &GroupConfig, report: &StepReport) -> (line: String)
    ensures
        line@ == ","@ + csv::joined(config.fields(), ","@) + ","@ + csv::joined(
            report.fields(),
            ","@,
        ),
{
    let mut line = String::from_str(",");
    line.append(config.to_string().as_str());
    line.append(",");
    line.append(report.to_string().as_str());
    line
}

/// How the line of a later step of an experiment ends.
pub fn chain_tail_line(
    protocol: LockingStrategy,
    kind: VersionIndexType,
    clock: ClockType,
    config: &SubGroupConfig,
    report: &StepReport,
) -> (line: String)
    ensures
        line@ == ","@ + protocol.name() + ","@ + kind.name() + ","@ + clock.name() + ","@
            + csv::joined(config.fields(), ","@) + ","@ + csv::joined(report.fields(), ","@),
{
    let mut line = String::from_str(",");
    line.append(protocol.to_string().as_str());
    line.append(",");
    line.append(kind.to_string().as_str());
    line.append(",");
    line.append(clock.to_string().as_str());
    line.append(",");
    line.append(config.to_string().as_str());
    line.append(",");
    line.append(report.to_string().as_str());
    line
}

/// The height of a tree as it keeps count of it, and as it is found by going down.
pub fn height_root<const FAN_OUT: usize, const NUM_RECORDS: usize>(
    tree: &BPlusTree<FAN_OUT, NUM_RECORDS>,
) -> (heights: (usize, usize))
    requires
        tree.wf(),
    ensures
        heights == (tree.levels() as usize, tree.levels() as usize),
{
    (tree.height(), tree.measured_height())
}

/// How many pages a tree holds, and how many of them were used before. Pages are never used
/// again.
pub fn block_alloc_reuses<const FAN_OUT: usize, const NUM_RECORDS: usize>(
    tree: &BPlusTree<FAN_OUT, NUM_RECORDS>,
) -> (counts: (usize, usize))
    requires
        tree.wf(),
    ensures
        counts.1 == 0,
        counts.0 == count::saturated(tree.page_total()),
{
    (tree.count_pages(), 0)
}

/// How many pages a tree got since it held some, and how many of them were used before.
pub fn block_allocs_since<const FAN_OUT: usize, const NUM_RECORDS: usize>(
    tree: &BPlusTree<FAN_OUT, NUM_RECORDS>,
    before: usize,
) -> (counts: (usize, usize))
    requires
        tree.wf(),
    ensures
        counts.1 == 0,
        counts.0 == (if count::saturated(tree.page_total()) >= before {
            count::saturated(tree.page_total()) - before
        } else {
            0
        }),
{
    let (pages, reused) = block_alloc_reuses(tree);
    (pages.saturating_sub(before), reused)
}

} // verus!
