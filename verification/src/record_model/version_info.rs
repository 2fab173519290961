//! The end of a version.

use vstd::prelude::*;
use crate::record_model::Version;

verus! {

/// The version at which a record was deleted, if it was.
#[derive(Clone, Copy, Debug, Default)]
pub struct DeletedVersionInfo {
    pub version: Option<Version>,
}

impl DeletedVersionInfo {
    /// No deletion.
    pub fn new_null() -> (info: Self)
        ensures
            info.version is None,
    {
        DeletedVersionInfo { version: None }
    }

    /// A deletion at `version`.
    pub fn at(version: Version) -> (info: Self)
        ensures
            info.version == Some(version),
    {
        DeletedVersionInfo { version: Some(version) }
    }

    /// The version of the deletion.
    pub fn get(&self) -> (version: Option<Version>)
        ensures
            version == self.version,
    {
        self.version
    }
}

} // verus!
