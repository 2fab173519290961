//! What reports tell: each column holds its value in decimal notation or as a word, so that the
//! values can be read back from a line.

use vstd::prelude::*;
use crate::record_model::v_record_point::VersionIndexType;
use crate::utils::csv;
use crate::utils::laws;
use crate::utils::text;
use crate::workload::config::{ClockType, GroupConfig, SubGroupConfig};
use crate::workload::experiment;
use crate::workload::experiment::{OlapResult, StepReport, WorkerReport};
use crate::workload::json;
use crate::workload::olap::OlapSample;
use crate::workload::oltp::OltpReport;
use crate::workload::paper;
use crate::workload::paper::Hits;

verus! {

/// Numbers hold no separators.
proof fn lemma_decimal_is_free(n: nat, c: char)
    requires
        laws::digit(c) < 0,
    ensures
        laws::numeral(text::decimal(n), n as int),
        laws::free_of(text::decimal(n), c),
{
    laws::law_numeral_is_unique(text::decimal(n), n);
    assert forall|i: int| 0 <= i < text::decimal(n).len() implies #[trigger] text::decimal(n)[i]
        != c by {
        assert(laws::digit(text::decimal(n)[i]) >= 0);
    }
}

/// A sample of a scan tells its snapshots, its sleep, its range, its count and its latency, and
/// two samples have the same line only if they agree in all of that.
pub proof fn law_samples_are_told(a: OlapSample, b: OlapSample)
    ensures
        a.fields().len() == 7,
        laws::numeral(a.fields()[0], a.target_snapshot as int),
        laws::numeral(a.fields()[1], a.current_snapshot as int),
        laws::numeral(a.fields()[2], a.sleep_time as int),
        laws::numeral(a.fields()[3], a.range_start as int),
        laws::numeral(a.fields()[4], a.range_end as int),
        laws::numeral(a.fields()[5], a.count_results as int),
        laws::numeral(a.fields()[6], a.latency as int),
        csv::joined(a.fields(), seq![',']) == csv::joined(b.fields(), seq![',']) ==> a == b,
{
    let fa = a.fields();
    let fb = b.fields();
    lemma_decimal_is_free(a.target_snapshot as nat, ',');
    lemma_decimal_is_free(a.current_snapshot as nat, ',');
    lemma_decimal_is_free(a.sleep_time as nat, ',');
    lemma_decimal_is_free(a.range_start as nat, ',');
    lemma_decimal_is_free(a.range_end as nat, ',');
    lemma_decimal_is_free(a.count_results as nat, ',');
    lemma_decimal_is_free(a.latency as nat, ',');
    lemma_decimal_is_free(b.target_snapshot as nat, ',');
    lemma_decimal_is_free(b.current_snapshot as nat, ',');
    lemma_decimal_is_free(b.sleep_time as nat, ',');
    lemma_decimal_is_free(b.range_start as nat, ',');
    lemma_decimal_is_free(b.range_end as nat, ',');
    lemma_decimal_is_free(b.count_results as nat, ',');
    lemma_decimal_is_free(b.latency as nat, ',');
    if csv::joined(fa, seq![',']) == csv::joined(fb, seq![',']) {
        laws::law_lines_tell_their_fields(fa, fb, ',');
        assert(fa[0] == fb[0] && fa[1] == fb[1] && fa[2] == fb[2] && fa[3] == fb[3]);
        assert(fa[4] == fb[4] && fa[5] == fb[5] && fa[6] == fb[6]);
    }
}

/// What is known of a scan beside an experiment is told column by column.
pub proof fn law_scan_results_are_told(r: OlapResult)
    ensures
        r.fields().len() == 6,
        laws::numeral(r.fields()[0], r.snapshot as int),
        laws::numeral(r.fields()[1], r.current_snapshot as int),
        laws::numeral(r.fields()[2], r.sleep_time as int),
        laws::numeral(r.fields()[3], r.range_max as int),
        laws::numeral(r.fields()[4], r.count as int),
        laws::numeral(r.fields()[5], r.latency as int),
{
    lemma_decimal_is_free(r.snapshot as nat, ',');
    lemma_decimal_is_free(r.current_snapshot as nat, ',');
    lemma_decimal_is_free(r.sleep_time as nat, ',');
    lemma_decimal_is_free(r.range_max as nat, ',');
    lemma_decimal_is_free(r.count as nat, ',');
    lemma_decimal_is_free(r.latency as nat, ',');
}

/// What is known of a load is told column by column.
pub proof fn law_loads_are_told(r: OltpReport)
    ensures
        r.fields().len() == 15,
        r.fields()[0] == text::truth(r.is_concurrent),
        laws::numeral(r.fields()[1], r.oltp_threads as int),
        laws::numeral(r.fields()[2], r.olap_threads as int),
        r.fields()[3] == r.v_index.name(),
        r.fields()[4] == r.skew@,
        r.fields()[5] == text::truth(r.gc),
        r.fields()[6] == text::truth(r.update_in_place),
        laws::numeral(r.fields()[7], r.slice_per_thread as int),
        laws::numeral(r.fields()[8], r.rest_slice as int),
        laws::numeral(r.fields()[9], r.blocks_allocated as int),
        laws::numeral(r.fields()[10], r.blocks_reused as int),
        laws::numeral(r.fields()[11], r.total_num_scan_tx as int),
        laws::numeral(r.fields()[12], r.total_num_oltp_tx as int),
        laws::numeral(r.fields()[13], r.total_oltp_time as int),
        laws::numeral(r.fields()[14], r.total_olap_time as int),
{
    lemma_decimal_is_free(r.oltp_threads as nat, ',');
    lemma_decimal_is_free(r.olap_threads as nat, ',');
    lemma_decimal_is_free(r.slice_per_thread as nat, ',');
    lemma_decimal_is_free(r.rest_slice as nat, ',');
    lemma_decimal_is_free(r.blocks_allocated as nat, ',');
    lemma_decimal_is_free(r.blocks_reused as nat, ',');
    lemma_decimal_is_free(r.total_num_scan_tx as nat, ',');
    lemma_decimal_is_free(r.total_num_oltp_tx as nat, ',');
    lemma_decimal_is_free(r.total_oltp_time as nat, ',');
    lemma_decimal_is_free(r.total_olap_time as nat, ',');
}

/// What is known of a step is told column by column.
pub proof fn law_step_reports_are_told(r: StepReport)
    ensures
        r.fields().len() == 10,
        laws::numeral(r.fields()[0], r.log_height as int),
        laws::numeral(r.fields()[1], r.actual_height as int),
        laws::numeral(r.fields()[2], r.blocks_allocated as int),
        laws::numeral(r.fields()[3], r.blocks_reused as int),
        laws::numeral(r.fields()[4], r.olaps_total_time as int),
        laws::numeral(r.fields()[5], r.olaps_workers as int),
        laws::numeral(r.fields()[6], r.olaps_per_worker as int),
        laws::numeral(r.fields()[7], r.olaps_avg_sleep_time as int),
        r.fields()[8] == text::truth(r.olaps_joint_workload),
        laws::numeral(r.fields()[9], r.total_running_time as int),
{
    lemma_decimal_is_free(r.log_height as nat, ',');
    lemma_decimal_is_free(r.actual_height as nat, ',');
    lemma_decimal_is_free(r.blocks_allocated as nat, ',');
    lemma_decimal_is_free(r.blocks_reused as nat, ',');
    lemma_decimal_is_free(r.olaps_total_time as nat, ',');
    lemma_decimal_is_free(r.olaps_workers as nat, ',');
    lemma_decimal_is_free(r.olaps_per_worker as nat, ',');
    lemma_decimal_is_free(r.olaps_avg_sleep_time as nat, ',');
    lemma_decimal_is_free(r.total_running_time as nat, ',');
}

/// What is done to a tree is told column by column: the skew, its number, a column that is not
/// filled, the threads, the ratios and the size of ranges.
pub proof fn law_configs_are_told(c: SubGroupConfig, g: GroupConfig, i: int)
    ensures
        c.fields().len() == 10,
        c.fields()[0] == c.skew@,
        laws::numeral(c.fields()[1], c.skew_n as int),
        c.fields()[2] =~= seq!['_'],
        laws::numeral(c.fields()[3], c.threads as int),
        laws::numeral(c.fields()[4], c.ratios.insert as int),
        laws::numeral(c.fields()[5], c.ratios.update as int),
        laws::numeral(c.fields()[6], c.ratios.delete as int),
        laws::numeral(c.fields()[7], c.ratios.point_reads as int),
        laws::numeral(c.fields()[8], c.ratios.range_reads as int),
        laws::numeral(c.fields()[9], c.range_size as int),
        g.fields().len() == 13,
        g.fields()[0] == g.protocol.name(),
        g.fields()[1] == g.v_index_type.name(),
        g.fields()[2] =~= seq!['_'],
        0 <= i < 10 ==> g.fields()[i + 3] == g.init.fields()[i],
{
    reveal_strlit("_");
    lemma_decimal_is_free(c.skew_n as nat, ',');
    lemma_decimal_is_free(c.threads as nat, ',');
    lemma_decimal_is_free(c.ratios.insert as nat, ',');
    lemma_decimal_is_free(c.ratios.update as nat, ',');
    lemma_decimal_is_free(c.ratios.delete as nat, ',');
    lemma_decimal_is_free(c.ratios.point_reads as nat, ',');
    lemma_decimal_is_free(c.ratios.range_reads as nat, ',');
    lemma_decimal_is_free(c.range_size as nat, ',');
    assert(c.fields().len() == 10);
    assert(g.init.fields().len() == 10);
}

/// The totals of workers are told as the sum of successes and errors, each of them, and the
/// time, each behind a comma.
pub proof fn law_totals_are_told(
    summary: WorkerReport,
    all: Seq<char>,
    success: Seq<char>,
    error: Seq<char>,
    time: Seq<char>,
)
    requires
        laws::numeral(all, summary.0.success + summary.0.error),
        laws::numeral(success, summary.0.success as int),
        laws::numeral(error, summary.0.error as int),
        laws::numeral(time, summary.1 as int),
    ensures
        experiment::totals_text(summary) =~= seq![','] + all + seq![','] + success + seq![',']
            + error + seq![','] + time,
{
    reveal_strlit(",");
    laws::law_numeral_is_unique(all, (summary.0.success + summary.0.error) as nat);
    laws::law_numeral_is_unique(success, summary.0.success as nat);
    laws::law_numeral_is_unique(error, summary.0.error as nat);
    laws::law_numeral_is_unique(time, summary.1 as nat);
    let fields = seq![all, success, error, time];
    let comma = ","@;
    let three = seq![all, success, error];
    let two = seq![all, success];
    let one = seq![all];
    assert(fields.drop_last() =~= three);
    assert(three.drop_last() =~= two);
    assert(two.drop_last() =~= one);
    assert(csv::joined(one, comma) == all);
    assert(csv::joined(two, comma) == all + comma + success);
    assert(csv::joined(three, comma) == all + comma + success + comma + error);
    assert(csv::joined(fields, comma) == all + comma + success + comma + error + comma + time);
    assert(comma =~= seq![',']);
}

/// A line of a histogram tells the ends of its interval, its hits, how many records a leaf holds
/// and how many keys there are.
pub proof fn law_histograms_are_told(map: Seq<Hits>, n: u64, i: int)
    requires
        0 <= i < map.len(),
    ensures
        paper::hist_lines(map, n).len() == map.len(),
        paper::hist_lines(map, n)[i] == csv::joined(paper::hist_fields(map[i], n), ","@),
        paper::hist_fields(map[i], n).len() == 5,
        laws::numeral(paper::hist_fields(map[i], n)[0], map[i].0.lower as int),
        laws::numeral(paper::hist_fields(map[i], n)[1], map[i].0.upper as int),
        laws::numeral(paper::hist_fields(map[i], n)[2], map[i].1 as int),
        laws::numeral(paper::hist_fields(map[i], n)[3], 170),
        laws::numeral(paper::hist_fields(map[i], n)[4], n as int),
{
    lemma_decimal_is_free(map[i].0.lower as nat, ',');
    lemma_decimal_is_free(map[i].0.upper as nat, ',');
    lemma_decimal_is_free(map[i].1 as nat, ',');
    lemma_decimal_is_free(170, ',');
    lemma_decimal_is_free(n as nat, ',');
}

/// The clocks have names that tell them apart.
pub proof fn law_clocks_have_names(clock: ClockType)
    ensures
        clock is FREE <==> clock.name() =~= seq!['F', 'R', 'E', 'E'],
        clock is OPT <==> clock.name() =~= seq!['O', 'P', 'T'],
        clock is SYNC <==> clock.name() =~= seq!['S', 'Y', 'N', 'C'],
{
    reveal_strlit("FREE");
    reveal_strlit("OPT");
    reveal_strlit("SYNC");
    assert("FREE"@[0] == 'F');
    assert("OPT"@[0] == 'O');
    assert("SYNC"@[0] == 'S');
    assert(seq!['F', 'R', 'E', 'E'][0] == 'F');
    assert(seq!['O', 'P', 'T'][0] == 'O');
    assert(seq!['S', 'Y', 'N', 'C'][0] == 'S');
}

/// File names tell the kinds of version indexes apart, but for the two skip lists.
pub proof fn law_prefixes(kind: VersionIndexType)
    ensures
        kind is VANILLA <==> experiment::prefix_text(kind) == "btree_ll"@,
        kind is SkipList || kind is SkipListSynced <==> experiment::prefix_text(kind)
            == "btree_sk"@,
        kind is FrugalSkipList <==> experiment::prefix_text(kind) == "btree_fg"@,
        kind is BTree <==> experiment::prefix_text(kind) == "btree_btree"@,
        kind is VWEAVER <==> experiment::prefix_text(kind) == "btree_vweaver"@,
{
    reveal_strlit("btree_ll");
    reveal_strlit("btree_sk");
    reveal_strlit("btree_fg");
    reveal_strlit("btree_btree");
    reveal_strlit("btree_vweaver");
    assert("btree_ll"@[6] == 'l');
    assert("btree_sk"@[6] == 's');
    assert("btree_fg"@[6] == 'f');
    assert("btree_btree"@[6] == 'b');
    assert("btree_vweaver"@[6] == 'v');
}

/// A list of keys is written in brackets, with the numerals of the keys in their order and
/// commas between them.
pub proof fn law_key_lists_are_told(keys: Seq<u64>, i: int)
    ensures
        json::list_text(keys).len() >= 2,
        json::list_text(keys)[0] == '[',
        json::list_text(keys).last() == ']',
        json::list_text(keys).subrange(1, json::list_text(keys).len() - 1) =~= csv::joined(
            json::decimals(keys),
            seq![','],
        ),
        json::decimals(keys).len() == keys.len(),
        0 <= i < keys.len() ==> laws::numeral(json::decimals(keys)[i], keys[i] as int),
{
    if 0 <= i < keys.len() {
        lemma_decimal_is_free(keys[i] as nat, ',');
    }
}

} // verus!
