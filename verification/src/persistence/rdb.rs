//! The snapshot manager: where the snapshot of the table lives.
//!
//! A snapshot is the whole table as a sequence of `(key, entry)` pairs.
//! Writing it to a temporary file and renaming that over the snapshot's
//! path, and reading it back, is the embedding program's part; what is
//! read is handed to [`crate::persistence::storage::Storage::load_persistent_data`].

use vstd::prelude::*;
use std::path::PathBuf;

verus! {

/// `std::path::PathBuf`, declared so that a path can be carried through.
/// Nothing is said of what a path holds.
#[verifier::external_type_specification]
#[verifier::external_body]
pub struct ExPathBuf(PathBuf);

/// The place of the snapshot file.
pub struct RdbManager {
    path: PathBuf,
}

impl RdbManager {
    /// The path of the snapshot file.
    pub closed spec fn location(&self) -> PathBuf {
        self.path
    }

    /// A manager of the snapshot at `path`.
    pub fn new(path: PathBuf) -> (manager: RdbManager)
        ensures
            manager.location() == path,
    {
        RdbManager { path }
    }

    /// The path of the snapshot file.
    pub fn path(&self) -> (path: &PathBuf)
        ensures
            *path == self.location(),
    {
        &self.path
    }
}

} // verus!
