//! What a record is made of: versions, payloads and the points that scans hand out.

pub mod node_versions;
pub mod record_point;
pub mod v_record_point;
pub mod version_index;
pub mod version_info;
pub mod versioned_entry;

use vstd::prelude::*;

verus! {

/// A point in the history of the tree. Versions are drawn from one ascending clock.
pub type Version = u64;

/// What identifies a record.
pub type Key = u64;

/// What a record carries.
pub type Payload = u64;

} // verus!
