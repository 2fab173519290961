//! What an experiment is made of.

use vstd::prelude::*;
use vstd::string::*;
use crate::locking::locking_strategy::LockingStrategy;
use crate::record_model::v_record_point::VersionIndexType;
use crate::utils::csv;
use crate::utils::text;

verus! {

/// How the clock of a tree is read.
#[derive(Clone, Copy, Debug, PartialEq, Eq, Structural)]
pub enum ClockType {
    FREE,
    OPT,
    SYNC,
}

impl ClockType {
    /// The name of the clock.
    pub open spec fn name(self) -> Seq<char> {
        match self {
            ClockType::FREE => "FREE"@,
            ClockType::OPT => "OPT"@,
            ClockType::SYNC => "SYNC"@,
        }
    }

    /// Writes the name of the clock.
    pub fn to_string(&self) -> (s: String)
        ensures
            s@ == self.name(),
    {
        match self {
            ClockType::FREE => String::from_str("FREE"),
            ClockType::OPT => String::from_str("OPT"),
            ClockType::SYNC => String::from_str("SYNC"),
        }
    }
}

/// How often each kind of transaction is drawn, out of a hundred.
#[derive(Clone, Copy, Debug, PartialEq, Eq, Structural)]
pub struct Ratios {
    pub insert: usize,
    pub update: usize,
    pub delete: usize,
    pub point_reads: usize,
    pub range_reads: usize,
}

impl Ratios {
    /// All of them together.
    pub open spec fn sum(self) -> int {
        self.insert + self.update + self.delete + self.point_reads + self.range_reads
    }

    /// Nothing writes.
    pub open spec fn read_only(self) -> bool {
        self.insert == 0 && self.update == 0 && self.delete == 0
    }

    /// Nothing reads.
    pub open spec fn write_only(self) -> bool {
        self.point_reads == 0 && self.range_reads == 0
    }

    /// The values as text.
    pub open spec fn fields(self) -> Seq<Seq<char>> {
        seq![
            text::decimal(self.insert as nat),
            text::decimal(self.update as nat),
            text::decimal(self.delete as nat),
            text::decimal(self.point_reads as nat),
            text::decimal(self.range_reads as nat),
        ]
    }

    /// Whether the kinds of transactions share all draws among them.
    pub fn is_complete(&self) -> (r: bool)
        ensures
            r == (self.sum() == 100),
    {
        self.insert.saturating_add(self.update).saturating_add(self.delete).saturating_add(
            self.point_reads,
        ).saturating_add(self.range_reads) == 100
    }

    /// Whether there is nothing to draw.
    pub fn is_nop(&self) -> (r: bool)
        ensures
            r == (self.sum() == 0),
    {
        self.insert == 0 && self.delete == 0 && self.update == 0 && self.point_reads == 0
            && self.range_reads == 0
    }
}

/// What is done to a tree.
#[derive(Clone, Debug)]
pub struct SubGroupConfig {
    pub olap_joint_workload: bool,
    pub olap_workers: usize,
    pub olaps_tx_per_worker: usize,
    /// How skewed the keys are, as it is written.
    pub skew: String,
    pub skew_n: usize,
    pub gc_enable: bool,
    pub threads: usize,
    pub total_tx: usize,
    pub ratios: Ratios,
    pub range_size: u64,
}

impl SubGroupConfig {
    /// The values as text.
    pub open spec fn fields(self) -> Seq<Seq<char>> {
        seq![
            self.skew@,
            text::decimal(self.skew_n as nat),
            "_"@,
            text::decimal(self.threads as nat),
        ] + self.ratios.fields() + seq![text::decimal(self.range_size as nat)]
    }

    /// Puts the values behind others.
    fn append_fields(&self, fields: &mut Vec<String>)
        ensures
            csv::texts(final(fields)@) == csv::texts(old(fields)@) + self.fields(),
    {
        fields.push(self.skew.clone());
        fields.push(text::number(self.skew_n as u64));
        fields.push(String::from_str("_"));
        fields.push(text::number(self.threads as u64));
        fields.push(text::number(self.ratios.insert as u64));
        fields.push(text::number(self.ratios.update as u64));
        fields.push(text::number(self.ratios.delete as u64));
        fields.push(text::number(self.ratios.point_reads as u64));
        fields.push(text::number(self.ratios.range_reads as u64));
        fields.push(text::number(self.range_size));
        assert(csv::texts(fields@) =~= csv::texts(old(fields)@) + self.fields());
    }

    /// Writes the values with commas between them.
    pub fn to_string(&self) -> (s: String)
        ensures
            s@ == csv::joined(self.fields(), ","@),
    {
        let mut fields: Vec<String> = Vec::new();
        self.append_fields(&mut fields);
        assert(csv::texts(fields@) =~= self.fields());
        csv::join(&fields, ",")
    }
}

/// A tree, what is done to it first, and what is done to it then.
#[derive(Clone, Debug)]
pub struct GroupConfig {
    pub protocol: LockingStrategy,
    pub v_index_type: VersionIndexType,
    pub clock: ClockType,
    pub init: SubGroupConfig,
    pub chain_groups: Vec<SubGroupConfig>,
}

impl GroupConfig {
    /// Whether the threads suit the protocol: where only one thread may write, there is only
    /// one, or the ratios are complete and nothing writes.
    pub fn is_valid(&self) -> (r: bool)
        requires
            self.init.ratios.sum() <= usize::MAX,
        ensures
            r == {
                ||| !(self.protocol is MonoWriter)
                ||| self.init.threads == 1
                ||| self.init.ratios.sum() == 100 && self.init.threads > 1
                    && self.init.ratios.read_only()
            },
    {
        let ratios = &self.init.ratios;
        100 == ratios.insert + ratios.update + ratios.delete + ratios.point_reads
            + ratios.range_reads && self.init.threads > 1 && self.protocol.is_mono_writer()
            && self.is_read_only() || self.init.threads == 1 && self.protocol.is_mono_writer()
            || !self.protocol.is_mono_writer()
    }

    /// What the tree is to be made of.
    pub fn index_handler(&self) -> (handler: (LockingStrategy, VersionIndexType))
        ensures
            handler == (self.protocol, self.v_index_type),
    {
        (self.protocol, self.v_index_type)
    }

    /// Whether nothing writes.
    pub fn is_read_only(&self) -> (r: bool)
        ensures
            r == self.init.ratios.read_only(),
    {
        self.init.ratios.insert == 0 && self.init.ratios.update == 0 && self.init.ratios.delete
            == 0
    }

    /// Whether nothing reads.
    pub fn is_write_only(&self) -> (r: bool)
        ensures
            r == self.init.ratios.write_only(),
    {
        self.init.ratios.point_reads == 0 && self.init.ratios.range_reads == 0
    }

    /// Whether something reads and something writes.
    pub fn is_mix_read_write(&self) -> (r: bool)
        ensures
            r == (!self.init.ratios.read_only() && !self.init.ratios.write_only()),
    {
        !self.is_read_only() && !self.is_write_only()
    }

    /// How often something more is done to the tree.
    pub fn num_chains(&self) -> (n: usize)
        ensures
            n == self.chain_groups@.len(),
    {
        self.chain_groups.len()
    }

    /// Ten million insertions by one thread.
    pub fn default() -> (config: Self)
        ensures
            config.protocol is OLC,
            config.v_index_type is VANILLA,
            config.clock is FREE,
            config.chain_groups@.len() == 0,
            !config.init.olap_joint_workload,
            config.init.olap_workers == 0,
            config.init.olaps_tx_per_worker == 0,
            config.init.skew@ == "1"@,
            config.init.skew_n == 10_000,
            !config.init.gc_enable,
            config.init.threads == 1,
            config.init.total_tx == 10_000_000,
            config.init.ratios == (Ratios {
                insert: 100,
                update: 0,
                delete: 0,
                point_reads: 0,
                range_reads: 0,
            }),
            config.init.range_size == 0,
    {
        GroupConfig {
            protocol: LockingStrategy::OLC,
            v_index_type: VersionIndexType::VANILLA,
            clock: ClockType::FREE,
            init: SubGroupConfig {
                olap_joint_workload: false,
                olap_workers: 0,
                olaps_tx_per_worker: 0,
                skew: String::from_str("1"),
                skew_n: 10_000,
                gc_enable: false,
                threads: 1,
                total_tx: 10_000_000,
                ratios: Ratios {
                    insert: 100,
                    update: 0,
                    delete: 0,
                    point_reads: 0,
                    range_reads: 0,
                },
                range_size: 0,
            },
            chain_groups: Vec::new(),
        }
    }

    /// The values as text.
    pub open spec fn fields(self) -> Seq<Seq<char>> {
        seq![self.protocol.name(), self.v_index_type.name(), "_"@] + self.init.fields()
    }

    /// Writes the values with commas between them.
    pub fn to_string(&self) -> (s: String)
        ensures
            s@ == csv::joined(self.fields(), ","@),
    {
        let mut fields: Vec<String> = Vec::new();
        fields.push(self.protocol.to_string());
        fields.push(self.v_index_type.to_string());
        fields.push(String::from_str("_"));
        self.init.append_fields(&mut fields);
        assert(csv::texts(fields@) =~= self.fields());
        csv::join(&fields, ",")
    }
}

/// How many experiments some groups hold.
pub open spec fn experiments(groups: Seq<GroupConfig>) -> nat
    decreases groups.len(),
{
    if groups.len() == 0 {
        0
    } else {
        experiments(groups.drop_last()) + 1 + groups.last().chain_groups@.len()
    }
}

/// Counts the experiments of some groups.
pub fn total_experiments(groups: &Vec<GroupConfig>) -> (n: usize)
    requires
        experiments(groups@) <= usize::MAX,
    ensures
        n == experiments(groups@),
{
    let mut n: usize = groups.len();
    let mut i: usize = 0;
    assert(groups@.take(0) =~= Seq::<GroupConfig>::empty());
    let total: usize = groups.len();
    while i < total
        invariant
            total == groups@.len(),
            i <= total,
            experiments(groups@) <= usize::MAX,
            n == experiments(groups@.take(i as int)) + (total - i),
        decreases total - i,
    {
        proof {
            let t = groups@.take(i + 1);
            assert(t.drop_last() =~= groups@.take(i as int));
            assert(t.last() == groups@[i as int]);
            lemma_experiments_ascend(groups@, i + 1);
        }
        n = n + groups[i].num_chains();
        i = i + 1;
    }
    assert(groups@.take(total as int) =~= groups@);
    n
}

/// The groups behind the first ones count at least once each.
proof fn lemma_experiments_ascend(groups: Seq<GroupConfig>, n: int)
    requires
        0 <= n <= groups.len(),
    ensures
        experiments(groups.take(n)) + (groups.len() - n) <= experiments(groups),
    decreases groups.len() - n,
{
    if n < groups.len() {
        lemma_experiments_ascend(groups, n + 1);
        assert(groups.take(n + 1).drop_last() =~= groups.take(n));
    } else {
        assert(groups.take(n) =~= groups);
    }
}

} // verus!
