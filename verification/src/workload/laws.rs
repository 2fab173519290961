//! What the benchmarks promise.

use vstd::prelude::*;
use crate::crud_model::crud_api::CRUDDispatcher;
use crate::crud_model::crud_operation::CRUDOperation;
use crate::crud_model::dispatch;
use crate::random;
use crate::record_model::record_point::RecordPoint;
use crate::record_model::versioned_entry::LIVE;
use crate::record_model::{Key, Payload, Version};
use crate::tree::bplus_tree;
use crate::tree::bplus_tree::{BPlusTree, TreeState};
use crate::utils::count;
use crate::utils::interval::Interval;
use crate::utils::laws;
use crate::utils::text;
use crate::workload::config;
use crate::workload::config::{GroupConfig, Ratios};
use crate::workload::experiment;
use crate::workload::experiment::{OlapResult, WorkerReport};
use crate::workload::fill;
use crate::workload::olap;
use crate::workload::olap::ScanRange;
use crate::workload::paper;
use crate::workload::paper::Hits;
use crate::workload::partition;
use crate::workload::payload;
use crate::workload::plan;
use crate::workload::plan::Step;
use crate::workload::runner;
use crate::workload::runner::{Answer, RunResult};

verus! {

/// Everything that some workers got, one after the other.
pub open spec fn gathered(parts: Seq<Vec<CRUDOperation>>) -> Seq<CRUDOperation>
    decreases parts.len(),
{
    if parts.len() == 0 {
        Seq::empty()
    } else {
        gathered(parts.drop_last()) + parts.last()@
    }
}

/// The first chunks hold the first transactions.
proof fn lemma_gathered_chunks(
    operations: Seq<CRUDOperation>,
    size: int,
    parts: Seq<Vec<CRUDOperation>>,
    n: int,
)
    requires
        size > 0,
        partition::chunked(operations, size, parts),
        0 <= n <= parts.len(),
    ensures
        0 <= n * size,
        gathered(parts.take(n)) == operations.take(
            if n * size <= operations.len() {
                n * size
            } else {
                operations.len() as int
            },
        ),
    decreases n,
{
    assert(0 <= n * size) by (nonlinear_arith)
        requires
            0 <= n,
            0 < size,
    ;
    if n == 0 {
        assert(0 * size == 0);
        assert(parts.take(0) =~= Seq::<Vec<CRUDOperation>>::empty());
        assert(operations.take(0) =~= Seq::<CRUDOperation>::empty());
    } else {
        lemma_gathered_chunks(operations, size, parts, n - 1);
        assert(parts.take(n).drop_last() =~= parts.take(n - 1));
        assert(parts.take(n).last() == parts[n - 1]);
        assert(partition::is_chunk(operations, size, n - 1, parts[n - 1]@));
        assert(n * size == (n - 1) * size + size) by (nonlinear_arith);
        let end = partition::chunk_end(operations.len() as int, size, n - 1);
        assert(operations.take((n - 1) * size) + parts[n - 1]@ =~= operations.take(end));
    }
}

/// Chunks part the transactions: one after the other they are all of them, in their order, none
/// is empty, each but the last has the size that was asked for, and the last has no more.
pub proof fn law_chunks_part_the_transactions(
    operations: Seq<CRUDOperation>,
    size: int,
    parts: Seq<Vec<CRUDOperation>>,
)
    requires
        size > 0,
        partition::chunked(operations, size, parts),
    ensures
        gathered(parts) == operations,
        forall|i: int| 0 <= i < parts.len() ==> 1 <= (#[trigger] parts[i])@.len() <= size,
        forall|i: int| 0 <= i < parts.len() - 1 ==> (#[trigger] parts[i])@.len() == size,
{
    let n = parts.len() as int;
    let l = operations.len() as int;
    assert(n * size >= l && (n > 0 ==> (n - 1) * size < l)) by (nonlinear_arith)
        requires
            n == (l + size - 1) / size,
            size > 0,
            l >= 0,
    ;
    lemma_gathered_chunks(operations, size, parts, n);
    assert(parts.take(n) =~= parts);
    assert(operations.take(l) =~= operations);
    assert forall|i: int| 0 <= i < n implies 1 <= (#[trigger] parts[i])@.len() <= size && (i < n - 1
        ==> parts[i]@.len() == size) by {
        assert(partition::is_chunk(operations, size, i, parts[i]@));
        assert((i + 1) * size == i * size + size) by (nonlinear_arith);
        assert(i * size <= (n - 1) * size) by (nonlinear_arith)
            requires
                i <= n - 1,
                size > 0,
        ;
        if i < n - 1 {
            assert((i + 1) * size <= (n - 1) * size) by (nonlinear_arith)
                requires
                    i + 1 <= n - 1,
                    size > 0,
            ;
        }
    }
}

/// A slice has the size that was asked for, and begins as many transactions behind the first one
/// as the slices before it hold.
pub proof fn law_slices_follow_each_other(
    operations: Seq<CRUDOperation>,
    size: int,
    i: int,
    part: Seq<CRUDOperation>,
    k: int,
)
    requires
        partition::is_slice(operations, size, i, part),
        size >= 0,
        i >= 0,
    ensures
        part.len() == size,
        0 <= k < size ==> part[k] == operations[i * size + k],
{
    assert((i + 1) * size == i * size + size) by (nonlinear_arith);
}

/// A scan up to a fixed key reads all keys up to it. One behind the latest key reads that key
/// and the thousand before it, as far as there are so many.
pub proof fn law_scan_bounds(upper: Key, latest: Key, k: Key)
    ensures
        olap::bounds(ScanRange::Fixed(upper)).has(k) <==> k <= upper,
        olap::bounds(ScanRange::Behind(latest)).has(k) <==> k <= latest <= k + 1000,
{
}

/// A window reads its start and as many more keys as it is wide, behind the start if they are
/// all below the number of keys, and before it otherwise.
pub proof fn law_windows(start: Key, width: Key, keys: Key, k: Key)
    requires
        start + width <= Key::MAX,
        start + width >= keys ==> start >= width,
    ensures
        olap::window_at(start, width, keys).has(start),
        start + width < keys ==> (olap::window_at(start, width, keys).has(k) <==> start <= k
            <= start + width),
        start + width >= keys ==> (olap::window_at(start, width, keys).has(k) <==> start - width
            <= k <= start),
{
}

/// The files of scans that are put off are marked as such, and the others are not.
pub proof fn law_lazy_files_are_marked(lazy: bool)
    ensures
        lazy ==> olap::lazy_text(lazy) =~= seq!['_', 'l', 'a', 'z', 'y'],
        !lazy ==> olap::lazy_text(lazy) =~= Seq::<char>::empty(),
{
    reveal_strlit("_lazy");
    reveal_strlit("");
}

/// The keys of an interval that a snapshot shows.
pub open spec fn shown_keys(state: TreeState, lower: Key, upper: Key, version: Version) -> Set<
    Key,
> {
    Set::new(
        |key: Key|
            lower <= key <= upper && dispatch::point_answer(state, key, version) is Some,
    )
}

/// A scan lists as many records as there are keys in its interval that point queries of the
/// snapshot show.
pub proof fn law_scans_count_the_shown_keys(
    state: TreeState,
    lower: Key,
    upper: Key,
    version: Version,
    out: Seq<RecordPoint<Key, Payload>>,
)
    requires
        bplus_tree::scanned(state.records, Interval { lower, upper }, version, out),
    ensures
        shown_keys(state, lower, upper, version).finite(),
        shown_keys(state, lower, upper, version).len() == out.len(),
        paper::keys_of(out).to_set() == shown_keys(state, lower, upper, version),
        forall|i: int, j: int|
            0 <= i < j < paper::keys_of(out).len() ==> paper::keys_of(out)[i] < paper::keys_of(
                out,
            )[j],
{
    let keys = paper::keys_of(out);
    let shown = shown_keys(state, lower, upper, version);
    let interval = Interval { lower, upper };
    assert forall|i: int, j: int| 0 <= i < j < keys.len() implies keys[i] < keys[j] by {
        assert(out[i].key < out[j].key);
    }
    assert(keys.no_duplicates());
    assert forall|k: Key| keys.to_set().contains(k) <==> shown.contains(k) by {
        if keys.contains(k) {
            let i = choose|i: int| 0 <= i < keys.len() && keys[i] == k;
            assert(bplus_tree::seen(state.records, interval, version, out[i]));
        }
        if shown.contains(k) {
            assert(state.records.contains_key(k));
            let i = choose|i: int| 0 <= i < out.len() && (#[trigger] out[i]).key == k;
            assert(keys[i] == k);
            assert(keys.contains(k));
        }
    }
    assert(keys.to_set() =~= shown);
    keys.unique_seq_to_set();
}

/// Each kind of transaction has a run of consecutive draws that is as long as its ratio:
/// insertions first, and then point reads, range reads and deletions. Updates have the rest.
pub proof fn law_draws(draw: usize, ratios: Ratios)
    ensures
        ({
            let d = draw as int;
            let points = ratios.insert as int;
            let ranges = points + ratios.point_reads;
            let deletes = ranges + ratios.range_reads;
            let updates = deletes + ratios.delete;
            &&& experiment::drawn(draw, ratios) is Insert <==> 0 <= d < points
            &&& experiment::drawn(draw, ratios) is PointRead <==> points <= d < ranges
            &&& experiment::drawn(draw, ratios) is RangeRead <==> ranges <= d < deletes
            &&& experiment::drawn(draw, ratios) is Delete <==> deletes <= d < updates
            &&& experiment::drawn(draw, ratios) is Update <==> updates <= d
        }),
{
}

/// The ratios are added up one by one, and those of readers and writers tell who is there.
pub proof fn law_ratios(ratios: Ratios)
    ensures
        ratios.sum() == ratios.insert + ratios.update + ratios.delete + ratios.point_reads
            + ratios.range_reads,
        ratios.read_only() <==> ratios.insert + ratios.update + ratios.delete == 0,
        ratios.write_only() <==> ratios.point_reads + ratios.range_reads == 0,
{
}

/// What workers report adds up: the sums over two groups of workers are the sums of the sums, and
/// one worker counts as what it reports.
pub proof fn law_reports_add_up(a: Seq<WorkerReport>, b: Seq<WorkerReport>)
    ensures
        experiment::successes(a + b) == experiment::successes(a) + experiment::successes(b),
        experiment::errors(a + b) == experiment::errors(a) + experiment::errors(b),
        a.len() == 1 ==> experiment::successes(a) == a[0].0.success && experiment::errors(a)
            == a[0].0.error,
        a.len() == 0 ==> experiment::successes(a) == 0 && experiment::errors(a) == 0,
    decreases b.len(),
{
    reveal_with_fuel(experiment::successes, 2);
    reveal_with_fuel(experiment::errors, 2);
    if b.len() == 0 {
        assert(a + b =~= a);
    } else {
        assert((a + b).drop_last() =~= a + b.drop_last());
        assert((a + b).last() == b.last());
        law_reports_add_up(a, b.drop_last());
    }
}

/// The slowest worker takes as long as some worker does, and no worker takes longer.
pub proof fn law_slowest_is_the_longest_time(reports: Seq<WorkerReport>)
    ensures
        forall|i: int|
            0 <= i < reports.len() ==> (#[trigger] reports[i]).1 <= experiment::slowest(reports),
        reports.len() > 0 ==> exists|i: int|
            0 <= i < reports.len() && (#[trigger] reports[i]).1 == experiment::slowest(reports),
        reports.len() == 0 ==> experiment::slowest(reports) == 0,
    decreases reports.len(),
{
    if reports.len() > 0 {
        let front = reports.drop_last();
        law_slowest_is_the_longest_time(front);
        assert forall|i: int| 0 <= i < reports.len() implies (#[trigger] reports[i]).1
            <= experiment::slowest(reports) by {
            if i < front.len() {
                assert(front[i] == reports[i]);
            }
        }
        let last = reports.len() - 1;
        if reports.last().1 > experiment::slowest(front) || front.len() == 0 {
            assert(reports[last].1 == experiment::slowest(reports));
        } else {
            let i = choose|i: int|
                0 <= i < front.len() && (#[trigger] front[i]).1 == experiment::slowest(front);
            assert(reports[i].1 == experiment::slowest(reports));
        }
    }
}

/// What scans report adds up.
pub proof fn law_scan_reports_add_up(a: Seq<OlapResult>, b: Seq<OlapResult>)
    ensures
        experiment::snapshot_sum(a + b) == experiment::snapshot_sum(a) + experiment::snapshot_sum(
            b,
        ),
        experiment::sleep_sum(a + b) == experiment::sleep_sum(a) + experiment::sleep_sum(b),
        a.len() == 1 ==> experiment::snapshot_sum(a) == a[0].current_snapshot
            && experiment::sleep_sum(a) == a[0].sleep_time,
        a.len() == 0 ==> experiment::snapshot_sum(a) == 0 && experiment::sleep_sum(a) == 0,
    decreases b.len(),
{
    reveal_with_fuel(experiment::snapshot_sum, 2);
    reveal_with_fuel(experiment::sleep_sum, 2);
    if b.len() == 0 {
        assert(a + b =~= a);
    } else {
        assert((a + b).drop_last() =~= a + b.drop_last());
        assert((a + b).last() == b.last());
        law_scan_reports_add_up(a, b.drop_last());
    }
}

/// The first step has a name of its own, and the later ones are told apart by their numbers.
pub proof fn law_steps_have_names(step: usize, other: usize)
    ensures
        step == 0 ==> experiment::step_text(step) =~= seq!['I', 'N', 'I', 'T'],
        step != 0 ==> laws::value(experiment::step_text(step)) == step,
        step != other ==> experiment::step_text(step) != experiment::step_text(other),
{
    reveal_strlit("INIT");
    laws::law_decimal_is_read_back(step as nat);
    laws::law_decimal_is_read_back(other as nat);
    let (s, o) = (experiment::step_text(step), experiment::step_text(other));
    if step == 0 && other != 0 {
        assert(s[0] == 'I');
        assert(laws::digit(text::decimal(other as nat)[0]) >= 0);
    }
    if step != 0 && other == 0 {
        assert(o[0] == 'I');
        assert(laws::digit(text::decimal(step as nat)[0]) >= 0);
    }
}

/// Experiments are counted group by group: one for each group, and one for each thing that is
/// done to its tree afterwards.
pub proof fn law_experiments_add_up(a: Seq<GroupConfig>, b: Seq<GroupConfig>)
    ensures
        config::experiments(a + b) == config::experiments(a) + config::experiments(b),
        a.len() == 1 ==> config::experiments(a) == 1 + a[0].chain_groups@.len(),
        a.len() == 0 ==> config::experiments(a) == 0,
    decreases b.len(),
{
    reveal_with_fuel(config::experiments, 2);
    if b.len() == 0 {
        assert(a + b =~= a);
    } else {
        assert((a + b).drop_last() =~= a + b.drop_last());
        assert((a + b).last() == b.last());
        law_experiments_add_up(a, b.drop_last());
    }
}

/// The second step is run after the first.
pub open spec fn runs_before(a: Step, b: Step) -> bool {
    a.0 < b.0 || a.0 == b.0 && a.1 < b.1
}

/// The steps of some groups are run group by group, in ascending order of their numbers. Each
/// group has a first step and one for each thing that is done to its tree afterwards.
pub proof fn law_steps_are_in_order(groups: Seq<GroupConfig>)
    requires
        groups.len() <= usize::MAX,
        forall|i: int|
            0 <= i < groups.len() ==> (#[trigger] groups[i]).chain_groups@.len() < usize::MAX,
    ensures
        forall|i: int, j: int|
            0 <= i < j < plan::steps(groups).len() ==> runs_before(
                plan::steps(groups)[i],
                plan::steps(groups)[j],
            ),
        forall|step: Step| #[trigger]
            plan::steps(groups).contains(step) <==> step.0 < groups.len() && step.1
                <= groups[step.0 as int].chain_groups@.len(),
    decreases groups.len(),
{
    let all = plan::steps(groups);
    if groups.len() > 0 {
        let front = groups.drop_last();
        assert forall|i: int| 0 <= i < front.len() implies (
        #[trigger] front[i]).chain_groups@.len() < usize::MAX by {
            assert(front[i] == groups[i]);
        }
        law_steps_are_in_order(front);
        let head = plan::steps(front);
        let last = groups.len() - 1;
        assert(groups[last] == groups.last());
        let own = Seq::new(
            groups.last().chain_groups@.len() + 1,
            |i: int| ((groups.len() - 1) as usize, i as usize),
        );
        assert(all == head + own);
        assert forall|i: int, j: int| 0 <= i < j < all.len() implies runs_before(
            all[i],
            all[j],
        ) by {
            if j < head.len() {
                assert(runs_before(head[i], head[j]));
            } else if i < head.len() {
                assert(head.contains(head[i]));
            }
        }
        assert forall|step: Step| #[trigger] all.contains(step) <==> step.0 < groups.len()
            && step.1 <= groups[step.0 as int].chain_groups@.len() by {
            if all.contains(step) {
                let i = choose|i: int| 0 <= i < all.len() && all[i] == step;
                if i < head.len() {
                    assert(head[i] == step);
                    assert(head.contains(step));
                    assert(front[step.0 as int] == groups[step.0 as int]);
                } else {
                    assert(own[i - head.len()] == step);
                }
            }
            if step.0 < groups.len() && step.1 <= groups[step.0 as int].chain_groups@.len() {
                if step.0 < last {
                    assert(front[step.0 as int] == groups[step.0 as int]);
                    assert(head.contains(step));
                    let i = choose|i: int| 0 <= i < head.len() && head[i] == step;
                    assert(all[i] == step);
                } else {
                    assert(own[step.1 as int] == step);
                    assert(all[head.len() + step.1] == step);
                }
            }
        }
    } else {
        assert(all.len() == 0);
    }
}

/// A load inserts each key with itself as the payload, then updates to zero, then deletes, each
/// in the order of the keys.
pub proof fn law_phases_of_a_load(
    inserted: Seq<Key>,
    updated: Seq<Key>,
    deleted: Seq<Key>,
    i: int,
)
    ensures
        ({
            let all = plan::insertions(inserted) + plan::updates(updated) + plan::deletions(
                deleted,
            );
            let (u, d) = (inserted.len() as int, inserted.len() + updated.len());
            &&& all.len() == d + deleted.len()
            &&& 0 <= i < u ==> all[i] == CRUDOperation::Insert(inserted[i], inserted[i])
            &&& u <= i < d ==> all[i] == CRUDOperation::Update(updated[i - u], 0)
            &&& d <= i < d + deleted.len() ==> all[i] == CRUDOperation::Delete(deleted[i - d])
        }),
{
}

/// A multiple of a billion is written in billions, any other multiple of a million in millions,
/// any other multiple of a thousand in thousands, and any other number as it is.
pub proof fn law_units(n: nat, count: nat)
    ensures
        n == count * 1_000_000_000 ==> paper::unit_text(n) == text::decimal(count) + seq![' ', 'B'],
        n == count * 1_000_000 && n % 1_000_000_000 != 0 ==> paper::unit_text(n) == text::decimal(
            count,
        ) + seq![' ', 'M', 'i', 'o'],
        n == count * 1_000 && n % 1_000_000 != 0 ==> paper::unit_text(n) == text::decimal(count)
            + seq![' ', 'K'],
        n % 1_000 != 0 ==> paper::unit_text(n) == text::decimal(n),
{
    reveal_strlit(" B");
    reveal_strlit(" Mio");
    reveal_strlit(" K");
    assert(" B"@ =~= seq![' ', 'B']);
    assert(" Mio"@ =~= seq![' ', 'M', 'i', 'o']);
    assert(" K"@ =~= seq![' ', 'K']);
    if n == count * 1_000_000_000 {
        assert(n / 1_000_000_000 == count && n % 1_000_000_000 == 0);
    } else if n == count * 1_000_000 {
        assert(n / 1_000_000 == count && n % 1_000_000 == 0);
    } else if n == count * 1_000 {
        assert(n / 1_000 == count && n % 1_000 == 0);
    }
}

/// Queries are counted one by one: a point query as one, a range query as one, and any other
/// transaction as neither.
pub proof fn law_queries_are_counted(a: Seq<CRUDOperation>, b: Seq<CRUDOperation>)
    ensures
        paper::points(a + b) == paper::points(a) + paper::points(b),
        paper::ranges(a + b) == paper::ranges(a) + paper::ranges(b),
        a.len() == 1 ==> {
            &&& paper::points(a) == if a[0] matches CRUDOperation::Point(_, _) {
                1nat
            } else {
                0nat
            }
            &&& paper::ranges(a) == if a[0] matches CRUDOperation::Range(_, _) {
                1nat
            } else {
                0nat
            }
        },
        a.len() == 0 ==> paper::points(a) == 0 && paper::ranges(a) == 0,
    decreases b.len(),
{
    reveal_with_fuel(paper::points, 2);
    reveal_with_fuel(paper::ranges, 2);
    if b.len() == 0 {
        assert(a + b =~= a);
    } else {
        assert((a + b).drop_last() =~= a + b.drop_last());
        assert((a + b).last() == b.last());
        law_queries_are_counted(a, b.drop_last());
    }
}

/// Errors and visits of workers add up.
pub proof fn law_results_add_up(a: Seq<RunResult>, b: Seq<RunResult>)
    ensures
        paper::error_sum(a + b) == paper::error_sum(a) + paper::error_sum(b),
        paper::visit_sum(a + b) == paper::visit_sum(a) + paper::visit_sum(b),
        a.len() == 1 ==> paper::error_sum(a) == a[0].errors && paper::visit_sum(a)
            == a[0].node_visits,
        a.len() == 0 ==> paper::error_sum(a) == 0 && paper::visit_sum(a) == 0,
    decreases b.len(),
{
    reveal_with_fuel(paper::error_sum, 2);
    reveal_with_fuel(paper::visit_sum, 2);
    if b.len() == 0 {
        assert(a + b =~= a);
    } else {
        assert((a + b).drop_last() =~= a + b.drop_last());
        assert((a + b).last() == b.last());
        law_results_add_up(a, b.drop_last());
    }
}

/// The intervals of a histogram begin with the smallest key, and each other one right behind the
/// end before it. They end where they are told to, but for the last one, which reaches to the
/// largest key, and nothing has been hit.
pub proof fn law_hit_maps(ends: Seq<Key>, i: int)
    requires
        0 <= i < ends.len(),
    ensures
        paper::hit_map(ends).len() == ends.len(),
        paper::hit_map(ends)[i].1 == 0,
        i == 0 ==> paper::hit_map(ends)[i].0.lower == 0,
        i > 0 && ends[i - 1] < Key::MAX ==> paper::hit_map(ends)[i].0.lower == ends[i - 1] + 1,
        i > 0 && ends[i - 1] == Key::MAX ==> paper::hit_map(ends)[i].0.lower == 0,
        i < ends.len() - 1 ==> paper::hit_map(ends)[i].0.upper == ends[i],
        i == ends.len() - 1 ==> paper::hit_map(ends)[i].0.upper == u64::MAX,
{
}

/// Visits add up.
pub proof fn law_visits_add_up(a: Seq<Answer>, b: Seq<Answer>)
    ensures
        runner::visits_of(a + b) == runner::visits_of(a) + runner::visits_of(b),
        a.len() == 1 ==> runner::visits_of(a) == a[0].0,
        a.len() == 0 ==> runner::visits_of(a) == 0,
    decreases b.len(),
{
    reveal_with_fuel(runner::visits_of, 2);
    if b.len() == 0 {
        assert(a + b =~= a);
    } else {
        assert((a + b).drop_last() =~= a + b.drop_last());
        assert((a + b).last() == b.last());
        law_visits_add_up(a, b.drop_last());
    }
}

/// The answers that are errors.
pub open spec fn error_answers(answers: Seq<Answer>) -> Set<int> {
    Set::new(|i: int| 0 <= i < answers.len() && answers[i].1 is Error)
}

/// Transactions that are run one after the other lead where the single ones lead, and as many
/// of them fail as are answered with an error.
pub proof fn law_runs_are_answered_one_by_one<const FAN_OUT: usize, const NUM_RECORDS: usize>(
    trees: Seq<BPlusTree<FAN_OUT, NUM_RECORDS>>,
    operations: Seq<CRUDOperation>,
    answers: Seq<Answer>,
)
    requires
        runner::traced(trees, operations, answers),
    ensures
        runner::run(trees[0]@, trees[0].make(), operations) == trees.last()@,
        error_answers(answers).finite(),
        runner::failures(trees[0]@, trees[0].make(), operations) == error_answers(answers).len(),
        trees.last().make() == trees[0].make(),
    decreases operations.len(),
{
    if operations.len() == 0 {
        assert(error_answers(answers) =~= Set::<int>::empty());
    } else {
        let n = operations.len() - 1;
        let (t, o, a) = (trees.drop_last(), operations.drop_last(), answers.drop_last());
        assert forall|i: int| #![trigger a[i]] 0 <= i < o.len() implies t[i].answered(
            o[i],
            &t[i + 1],
            a[i].0,
            a[i].1,
        ) by {
            assert(a[i] == answers[i]);
        }
        law_runs_are_answered_one_by_one(t, o, a);
        assert(t.last() == trees[n]);
        assert(answers[n] == answers.last());
        runner::lemma_step(&trees[n], operations[n], &trees[n + 1], answers[n].0, answers[n].1);
        if answers[n].1 is Error {
            assert(error_answers(answers) =~= error_answers(a).insert(n));
        } else {
            assert(error_answers(answers) =~= error_answers(a));
        }
    }
}

/// There are just enough chunks: all but the last do not hold all transactions.
pub proof fn law_chunk_count(len: int, size: int)
    requires
        len >= 0,
        size > 0,
    ensures
        len <= partition::chunk_count(len, size) * size,
        len > 0 ==> (partition::chunk_count(len, size) - 1) * size < len,
        len == 0 ==> partition::chunk_count(len, size) == 0,
{
    let n = partition::chunk_count(len, size);
    assert(n * size >= len && (len > 0 ==> (n - 1) * size < len) && (len == 0 ==> n == 0))
        by (nonlinear_arith)
        requires
            n == (len + size - 1) / size,
            size > 0,
            len >= 0,
    ;
}

/// Benchmarks write zeros, and scans of the newest snapshot name the last version before the one
/// that stands for no end.
pub proof fn law_constants()
    ensures
        fill::PAYLOAD == 0,
        experiment::PAYLOAD == 0,
        paper::PAYLOAD == 0,
        plan::PAYLOAD == 0,
        paper::VERSION_STAR == u64::MAX - 1,
        LIVE == u64::MAX,
{
}

/// Counting stops at the largest number that can be counted to.
pub proof fn law_saturated(n: nat)
    ensures
        count::saturated(n) <= usize::MAX,
        n <= usize::MAX ==> count::saturated(n) == n,
        n > usize::MAX ==> count::saturated(n) == usize::MAX,
{
}

/// Intervals cover all keys if the first begins with the smallest key, each other one right
/// behind the one before it, none ends before it begins, and the last ends with the largest key.
pub proof fn law_covers(map: Seq<Hits>)
    requires
        map.len() > 0,
        map[0].0.lower == 0,
        map[map.len() - 1].0.upper == u64::MAX,
        forall|i: int| 0 <= i < map.len() ==> (#[trigger] map[i]).0.lower <= map[i].0.upper,
        forall|i: int| 0 < i < map.len() ==> (#[trigger] map[i]).0.lower == map[i - 1].0.upper + 1,
    ensures
        paper::covers(map),
{
    assert forall|i: int| 0 < i < map.len() implies #[trigger] paper::adjacent(map, i) by {
        assert(map[i].0.lower == map[i - 1].0.upper + 1);
    }
    assert forall|i: int, j: int| 0 <= i < j < map.len() implies (#[trigger] map[i]).0.upper < (
    #[trigger] map[j]).0.lower by {
        lemma_covers_ascends(map, i, j);
    }
}

/// Intervals side by side ascend.
proof fn lemma_covers_ascends(map: Seq<Hits>, i: int, j: int)
    requires
        0 <= i < j < map.len(),
        forall|k: int| 0 <= k < map.len() ==> (#[trigger] map[k]).0.lower <= map[k].0.upper,
        forall|k: int| 0 < k < map.len() ==> (#[trigger] map[k]).0.lower == map[k - 1].0.upper + 1,
    ensures
        map[i].0.upper < map[j].0.lower,
    decreases j - i,
{
    assert(map[j].0.lower == map[j - 1].0.upper + 1);
    if i < j - 1 {
        lemma_covers_ascends(map, i, j - 1);
        assert(map[j - 1].0.lower <= map[j - 1].0.upper);
    }
}

/// A random attribute is made of letters and digits, and no shorter and no longer than allowed.
pub proof fn law_attributes(s: Seq<char>, len_min: usize, len_max: usize)
    ensures
        payload::random_attribute(s, len_min, len_max) <==> len_min <= s.len() <= len_max
            && forall|i: int|
            0 <= i < s.len() ==> {
                let c = #[trigger] s[i];
                'a' <= c <= 'z' || 'A' <= c <= 'Z' || '0' <= c <= '9'
            },
{
    if payload::random_attribute(s, len_min, len_max) {
        assert forall|i: int| 0 <= i < s.len() implies {
            let c = #[trigger] s[i];
            'a' <= c <= 'z' || 'A' <= c <= 'Z' || '0' <= c <= '9'
        } by {
            assert(random::alphanumeric(s[i]));
        }
    }
}

} // verus!
