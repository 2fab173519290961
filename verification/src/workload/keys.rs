//! Neighbouring keys.

use vstd::prelude::*;
use crate::record_model::Key;

verus! {

/// The next key; the largest is its own.
pub open spec fn after(key: Key) -> Key {
    if key == Key::MAX {
        key
    } else {
        (key + 1) as Key
    }
}

/// The previous key; the smallest is its own.
pub open spec fn before(key: Key) -> Key {
    if key == 0 {
        key
    } else {
        (key - 1) as Key
    }
}

/// The next key; the largest is its own.
pub fn inc_key(k: Key) -> (next: Key)
    ensures
        next == after(k),
{
    k.saturating_add(1)
}

/// The previous key; the smallest is its own.
pub fn dec_key(k: Key) -> (previous: Key)
    ensures
        previous == before(k),
{
    k.saturating_sub(1)
}

/// Going to the next key and back leads to the key, except from the largest.
pub proof fn law_dec_undoes_inc(k: Key)
    requires
        k < Key::MAX,
    ensures
        before(after(k)) == k,
{
}

/// The next key is the smallest of the larger ones, and the previous key the largest of the
/// smaller ones. At the ends there is none, and the key stays.
pub proof fn law_neighbours_are_next_to_each_other(k: Key, other: Key)
    ensures
        k < other ==> k < after(k) <= other,
        other < k ==> other <= before(k) < k,
        k == Key::MAX ==> after(k) == k,
        k == 0 ==> before(k) == k,
{
}

} // verus!
