//! The tree.

use vstd::prelude::*;

pub mod bplus_tree;
pub mod record_tree;
pub mod weaver;
pub mod weaver_laws;

verus! {

/// Children of an index page.
pub const FAN_OUT: usize = 255;

/// Records on a leaf page.
pub const NUM_RECORDS: usize = 170;

} // verus!
