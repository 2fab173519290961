//! Scans of snapshots while others write.

use vstd::prelude::*;
use vstd::string::*;
use crate::crud_model::crud_api::CRUDDispatcher;
use crate::crud_model::crud_operation::CRUDOperation;
use crate::crud_model::crud_operation_result::CRUDOperationResult;
use crate::random::random_between;
use crate::record_model::record_point::RecordPoint;
use crate::record_model::v_record_point::VersionIndexType;
use crate::record_model::{Key, Payload, Version};
use crate::tree::bplus_tree;
use crate::tree::bplus_tree::BPlusTree;
use crate::utils::csv;
use crate::utils::interval::Interval;
use crate::utils::text;

verus! {

/// How far a scan behind the latest key reaches back.
pub const TAIL: Key = 1000;

/// What is scanned.
#[derive(Clone, Copy, Debug, PartialEq, Eq, Structural)]
pub enum ScanRange {
    /// All keys up to a fixed one.
    Fixed(Key),
    /// The last keys before the latest one.
    Behind(Key),
}

/// The keys that are scanned.
pub open spec fn bounds(range: ScanRange) -> Interval {
    match range {
        ScanRange::Fixed(upper) => Interval { lower: 0, upper },
        ScanRange::Behind(latest) => Interval {
            lower: if latest >= TAIL {
                (latest - TAIL) as Key
            } else {
                0
            },
            upper: latest,
        },
    }
}

/// The keys that are scanned.
pub fn scan_bounds(range: ScanRange) -> (interval: Interval)
    ensures
        interval == bounds(range),
{
    match range {
        ScanRange::Fixed(upper) => Interval::new(0, upper),
        ScanRange::Behind(latest) => Interval::new(latest.saturating_sub(TAIL), latest),
    }
}

/// Whether there is something to scan: some writer has moved the clock.
pub fn may_scan(current: Version) -> (r: bool)
    ensures
        r == (current != 1),
{
    current != 1
}

/// The snapshot to scan: the current one, or any that was current.
pub fn choose_snapshot(fixed: bool, current: Version) -> (snapshot: Version)
    requires
        !fixed ==> current >= 1,
    ensures
        fixed ==> snapshot == current,
        !fixed ==> 1 <= snapshot <= current,
{
    if fixed {
        current
    } else {
        random_between(1, current)
    }
}

/// The scan of a snapshot.
pub fn scan_query(range: ScanRange, snapshot: Version) -> (operation: CRUDOperation)
    ensures
        operation == CRUDOperation::Range(bounds(range), snapshot),
{
    CRUDOperation::Range(scan_bounds(range), snapshot)
}

/// Scans a snapshot and counts what it shows.
pub fn count_scan<const FAN_OUT: usize, const NUM_RECORDS: usize>(
    tree: &BPlusTree<FAN_OUT, NUM_RECORDS>,
    range: ScanRange,
    snapshot: Version,
) -> (count: usize)
    requires
        tree.wf(),
    ensures
        exists|out: Seq<RecordPoint<Key, Payload>>| #[trigger]
            bplus_tree::scanned(tree@.records, bounds(range), snapshot, out) && count
                == out.len(),
{
    match tree.dispatch_read(scan_query(range, snapshot)) {
        (_, CRUDOperationResult::MatchedRecords(data)) => data.len(),
        _ => 0,
    }
}

/// What the thread that started the scans says.
#[derive(Clone, Copy, Debug, PartialEq, Eq, Structural)]
pub enum ControlSignal {
    /// It did not ask for control.
    Absent,
    /// It wants more scans.
    Open,
    /// It wants no more scans.
    Disconnected,
}

/// How many scans count as done after one more, or nothing if that was the last. Scans that
/// are under control go on until they are told otherwise.
pub fn after_scan(done: usize, signal: ControlSignal) -> (next: Option<usize>)
    requires
        done < usize::MAX,
    ensures
        next == (match signal {
            ControlSignal::Absent => Some((done + 1) as usize),
            ControlSignal::Open => Some(done),
            ControlSignal::Disconnected => None,
        }),
{
    match signal {
        ControlSignal::Absent => Some(done + 1),
        ControlSignal::Open => Some(done),
        ControlSignal::Disconnected => None,
    }
}

/// What is known of a scan.
#[derive(Clone, Copy, Debug)]
pub struct OlapSample {
    pub target_snapshot: Version,
    pub current_snapshot: Version,
    pub sleep_time: u128,
    pub range_start: Key,
    pub range_end: Key,
    pub count_results: usize,
    pub latency: u128,
}

impl OlapSample {
    /// The values of a sample.
    pub open spec fn fields(self) -> Seq<Seq<char>> {
        seq![
            text::decimal(self.target_snapshot as nat),
            text::decimal(self.current_snapshot as nat),
            text::decimal(self.sleep_time as nat),
            text::decimal(self.range_start as nat),
            text::decimal(self.range_end as nat),
            text::decimal(self.count_results as nat),
            text::decimal(self.latency as nat),
        ]
    }

    /// Writes a sample as a line.
    pub fn csv_line(&self) -> (line: String)
        ensures
            line@ == csv::joined(self.fields(), ","@) + "\n"@,
    {
        let mut fields: Vec<String> = Vec::new();
        fields.push(text::number(self.target_snapshot));
        fields.push(text::number(self.current_snapshot));
        fields.push(text::wide_number(self.sleep_time));
        fields.push(text::number(self.range_start));
        fields.push(text::number(self.range_end));
        fields.push(text::number(self.count_results as u64));
        fields.push(text::wide_number(self.latency));
        assert(csv::texts(fields@) =~= self.fields());
        let mut line = csv::join(&fields, ",");
        line.append("\n");
        line
    }
}

/// The head of a file of samples.
pub fn olap_header() -> (line: &'static str)
    ensures
        line@
            == "target_snapshot,current_snapshot,sleep_time,range_start,range_end,count_results,latency\n"@,
{
    "target_snapshot,current_snapshot,sleep_time,range_start,range_end,count_results,latency\n"
}

/// What the name of a file of samples says of scans that are put off.
pub open spec fn lazy_text(lazy: bool) -> Seq<char> {
    if lazy {
        "_lazy"@
    } else {
        ""@
    }
}

/// The file that samples are written to.
pub fn sample_file_name(kind: VersionIndexType, lazy: bool, skew: &str) -> (name: String)
    ensures
        name@ == "btree_"@ + kind.name() + lazy_text(lazy) + "_olap_skew_"@ + skew@ + ".csv"@,
{
    let mut name = String::from_str("btree_");
    name.append(kind.to_string().as_str());
    if lazy {
        name.append("_lazy");
    } else {
        name.append("");
    }
    name.append("_olap_skew_");
    name.append(skew);
    name.append(".csv");
    name
}

/// The keys of a scan of a fixed width: behind a key, or before it if there is no room behind.
pub open spec fn window_at(start: Key, width: Key, keys: Key) -> Interval {
    if start + width >= keys {
        Interval { lower: (start - width) as Key, upper: start }
    } else {
        Interval { lower: start, upper: (start + width) as Key }
    }
}

/// The keys of a scan of a fixed width: behind a key, or before it if there is no room behind.
pub fn window(start: Key, width: Key, keys: Key) -> (interval: Interval)
    requires
        start + width <= Key::MAX,
        start + width >= keys ==> start >= width,
    ensures
        interval == window_at(start, width, keys),
{
    let mut key_min = start;
    let mut key_max = start + width;
    if key_max >= keys {
        key_max = key_min;
        key_min = key_min - width;
    }
    Interval::new(key_min, key_max)
}

/// The keys of a scan of a fixed width behind or before any key.
pub fn random_window(width: Key, keys: Key) -> (interval: Interval)
    requires
        0 < keys,
        2 * width <= keys,
        keys + width <= Key::MAX,
    ensures
        exists|start: Key| start < keys && interval == #[trigger] window_at(start, width, keys),
        interval.upper - interval.lower == width,
        interval.upper < keys,
{
    window(random_between(0, keys - 1), width, keys)
}

/// How many scans follow the first, and how far apart their snapshots are if these are spread
/// over all that were current.
pub fn scan_plan(spread: bool, current: Version, scans: u64) -> (plan: (u64, Version))
    requires
        0 < scans < u64::MAX,
    ensures
        plan.0 == (if !spread {
            (scans - 1) as u64
        } else if current % scans == 0 {
            scans
        } else {
            (scans + 1) as u64
        }),
        plan.1 == current / scans,
{
    let limit = if spread {
        if current % scans == 0 {
            scans
        } else {
            scans + 1
        }
    } else {
        scans - 1
    };
    (limit, current / scans)
}

} // verus!
