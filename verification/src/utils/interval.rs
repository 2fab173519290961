//! Ranges of keys.

use vstd::prelude::*;
use crate::record_model::Key;

verus! {

/// The keys from `lower` up to and including `upper`.
#[derive(Clone, Copy, Debug, PartialEq, Eq, Structural)]
pub struct Interval {
    pub lower: Key,
    pub upper: Key,
}

impl Interval {
    /// Whether the key is one of them.
    pub open spec fn has(self, key: Key) -> bool {
        self.lower <= key <= self.upper
    }

    /// The keys from `lower` up to and including `upper`.
    pub fn new(lower: Key, upper: Key) -> (interval: Self)
        ensures
            interval == (Interval { lower, upper }),
    {
        Interval { lower, upper }
    }

    /// Whether the key is one of them.
    pub fn contains(&self, key: Key) -> (r: bool)
        ensures
            r == self.has(key),
    {
        self.lower <= key && key <= self.upper
    }

    /// Moves the upper end.
    pub fn set_upper(&mut self, upper: Key)
        ensures
            *final(self) == (Interval { upper, ..*old(self) }),
    {
        self.upper = upper;
    }
}

} // verus!
