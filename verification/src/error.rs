//! The ways in which a mirroring decision can fail, and what an attempted
//! file-system operation reported back.

use vstd::prelude::*;

verus! {

/// Why the engine refused to go on.
#[derive(Clone, Copy, Debug, PartialEq, Eq, Structural)]
pub enum SyncError {
    /// A root is missing or is not a directory.
    StartupValidation,
    /// A tree could not be listed, or an entry of it could not be read.
    IoError,
    /// A tree holds no file, so it has no most recent modification.
    EmptyTree,
    /// Copying or removing failed for a reason other than a missing entry.
    CopyFailure,
    /// An entry is neither a regular file, a symbolic link nor a directory.
    UnhandledEntryKind,
    /// A path does not lie under the root it was claimed to lie under.
    PathOutsideRoot,
}

/// What a file-system operation reported.
#[derive(Clone, Copy, Debug, PartialEq, Eq, Structural)]
pub enum IoOutcome {
    /// The operation succeeded.
    Done,
    /// The entry it was aimed at does not exist.
    NotFound,
    /// It failed for any other reason.
    Failed,
}

/// What kind of entry a path names.
#[derive(Clone, Copy, Debug, PartialEq, Eq, Structural)]
pub enum EntryKind {
    File,
    Symlink,
    Directory,
    Other,
}

} // verus!
