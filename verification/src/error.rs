//! Error taxonomy of the synchronization core.
//!
//! Every failure in this subsystem is recoverable: a transport or
//! protocol fault drops the connection, an unknown track query falls
//! back to a default value. Nothing here is ever fatal to the host.

use vstd::prelude::*;

verus! {

/// A track query failed because the index names no registered track.
#[derive(Clone, Copy, PartialEq, Eq, Structural, Debug)]
pub enum SyncError {
    UnknownTrack,
}

/// Why a live connection had to be dropped.
#[derive(Clone, Copy, PartialEq, Eq, Structural, Debug)]
pub enum Fault {
    /// Connect, read or write failed, or the stream ended.
    Transport,
    /// A malformed or unexpected message arrived.
    Protocol,
}

/// Top-level error of the tool core.
#[derive(Clone, Copy, PartialEq, Eq, Structural, Debug)]
pub enum ToolError {
    Sync(SyncError),
}

impl ToolError {
    /// The error's description: empty, as the detail lives in the
    /// variant itself.
    pub fn description(&self) -> (s: &'static str)
        ensures
            s@ == ""@,
    {
        match *self {
            ToolError::Sync(_) => "",
        }
    }

    /// A short human-readable name of the error's kind.
    pub fn kind(&self) -> (s: &'static str)
        ensures
            *self == ToolError::Sync(SyncError::UnknownTrack) ==> s@ == "Sync Track does't exist"@,
    {
        match *self {
            ToolError::Sync(SyncError::UnknownTrack) => "Sync Track does't exist",
        }
    }
}

} // verus!
