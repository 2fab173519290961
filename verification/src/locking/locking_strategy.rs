//! Locking strategies.

use vstd::prelude::*;
use vstd::string::*;
use crate::utils::text;

verus! {

/// How often an optimistic attempt is repeated before a lock is taken.
pub type Attempts = usize;

/// What a tree does to keep its readers and writers apart.
#[derive(Clone, Copy, Debug, PartialEq, Eq, Structural)]
pub enum LockingStrategy {
    /// Only one thread ever writes.
    MonoWriter,
    /// The lock of a page is kept until that of the next one is held.
    LockCoupling,
    /// Optimistic reads, write locks on the way down.
    ORWC { attempts: Attempts },
    /// Optimistic lock coupling.
    OLC,
    /// Optimistic lock coupling that falls back to locks after some attempts.
    LightweightHybridLock { read_attempts: Attempts, write_attempts: Attempts },
    /// Optimistic lock coupling with a fallback for readers.
    HybridLocking { read_attempts: Attempts },
}

impl LockingStrategy {
    /// Readers validate what they read instead of locking it.
    pub open spec fn optimistic(self) -> bool {
        self is OLC || self is LightweightHybridLock || self is HybridLocking
    }

    /// Whether readers validate what they read instead of locking it.
    pub fn is_optimistic(&self) -> (r: bool)
        ensures
            r == self.optimistic(),
    {
        match self {
            LockingStrategy::OLC => true,
            LockingStrategy::LightweightHybridLock { .. } => true,
            LockingStrategy::HybridLocking { .. } => true,
            _ => false,
        }
    }

    /// The name of the strategy.
    pub open spec fn name(self) -> Seq<char> {
        match self {
            LockingStrategy::MonoWriter => "MonoWriter"@,
            LockingStrategy::LockCoupling => "LockCoupling"@,
            LockingStrategy::ORWC { attempts } => "ORWC(Attempts="@ + text::decimal(
                attempts as nat,
            ) + ")"@,
            LockingStrategy::OLC => "OLC"@,
            LockingStrategy::LightweightHybridLock { read_attempts, write_attempts } =>
                "LightweightHybridLock(Read="@ + text::decimal(read_attempts as nat) + ";Write="@
                    + text::decimal(write_attempts as nat) + ")"@,
            LockingStrategy::HybridLocking { read_attempts } => "HybridLocking(Attempts="@
                + text::decimal(read_attempts as nat) + ")"@,
        }
    }

    /// Writes the name of the strategy.
    pub fn to_string(&self) -> (s: String)
        ensures
            s@ == self.name(),
    {
        match self {
            LockingStrategy::MonoWriter => String::from_str("MonoWriter"),
            LockingStrategy::LockCoupling => String::from_str("LockCoupling"),
            LockingStrategy::ORWC { attempts } => {
                let mut s = String::from_str("ORWC(Attempts=");
                s.append(text::number(*attempts as u64).as_str());
                s.append(")");
                s
            },
            LockingStrategy::OLC => String::from_str("OLC"),
            LockingStrategy::LightweightHybridLock { read_attempts, write_attempts } => {
                let mut s = String::from_str("LightweightHybridLock(Read=");
                s.append(text::number(*read_attempts as u64).as_str());
                s.append(";Write=");
                s.append(text::number(*write_attempts as u64).as_str());
                s.append(")");
                s
            },
            LockingStrategy::HybridLocking { read_attempts } => {
                let mut s = String::from_str("HybridLocking(Attempts=");
                s.append(text::number(*read_attempts as u64).as_str());
                s.append(")");
                s
            },
        }
    }

    /// Whether only one thread may write.
    pub fn is_mono_writer(&self) -> (r: bool)
        ensures
            r == (*self is MonoWriter),
    {
        match self {
            LockingStrategy::MonoWriter => true,
            _ => false,
        }
    }
}

} // verus!
