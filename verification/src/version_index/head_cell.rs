//! The atomically published head of a version list.

use vstd::prelude::*;
use arc_swap::ArcSwap;
use std::sync::Arc;

verus! {

/// Holds the position of the newest version of a list in an `arc_swap::ArcSwap`, which
/// readers load without a lock.
#[verifier::external_body]
pub struct HeadCell {
    position: ArcSwap<usize>,
}

/// The position that a cell holds.
pub uninterp spec fn head_position(cell: HeadCell) -> usize;

/// `ArcSwap::new`: the cell holds the given position.
#[verifier::external_body]
pub(crate) fn new_head(position: usize) -> (cell: HeadCell)
    ensures
        head_position(cell) == position,
{
    HeadCell { position: ArcSwap::new(Arc::new(position)) }
}

/// `ArcSwap::load_full`: hands out the position that the cell holds. Positions are only
/// stored through an exclusive borrow of the cell, so none can change while it is shared.
#[verifier::external_body]
pub(crate) fn load_head(cell: &HeadCell) -> (position: usize)
    ensures
        position == head_position(*cell),
{
    *cell.position.load_full()
}

/// `ArcSwap::store`: further loads yield the new position.
#[verifier::external_body]
pub(crate) fn store_head(cell: &mut HeadCell, position: usize)
    ensures
        head_position(*final(cell)) == position,
{
    cell.position.store(Arc::new(position));
}

} // verus!
