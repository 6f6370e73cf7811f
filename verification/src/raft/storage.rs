use vstd::prelude::*;

verus! {

/// Why storage could not answer a request.
#[derive(Debug, Clone, Copy, PartialEq, Eq, Structural)]
pub enum StorageError {
    /// The requested index is unavailable due to compaction.
    Compacted,
    /// The requested index is older than the existing snapshot.
    SnapOutOfDate,
    /// The requested entry is unavailable.
    Unavailable,
    /// The snapshot is temporarily unavailable.
    SnapshotTemporarilyUnavailable,
}

} // verus!
