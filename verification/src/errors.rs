//! Errors that reach a file-system caller.

use vstd::prelude::*;

verus! {

#[derive(Clone, Copy, Debug, PartialEq, Eq, Structural)]
pub enum FsError {
    /// A stored record does not have the expected shape.
    InvalidData,
    /// The handle is a reader, not the writer.
    ReadOnlyFilesystem,
    /// Another node may already be the leader.
    LeaderLeaseExpired,
    /// The volume is being closed.
    ShuttingDown,
    /// The named thing does not exist.
    NotFound,
}

} // verus!
