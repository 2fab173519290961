//! A multi-version B+ tree: every key owns an index over the versions of its record, and
//! every read names the snapshot it wants to see.

pub mod api;
pub mod crud_model;
pub mod locking;
pub mod mvb_version_index;
pub mod page_model;
pub mod random;
pub mod record_model;
pub mod tree;
pub mod utils;
pub mod version_index;
pub mod workload;
