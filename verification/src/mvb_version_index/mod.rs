//! Version indexes of the multi-version tree.

pub mod frugal;
pub mod vanilla;
pub mod version_index;
