//! Counting as far as can be counted to.

use vstd::prelude::*;

verus! {

/// The number, or the largest that can be counted to.
pub open spec fn saturated(n: nat) -> nat {
    if n <= usize::MAX {
        n
    } else {
        usize::MAX as nat
    }
}

} // verus!
