//! The failures a request can end in. Every one is a per-request reply,
//! never an abort: a malformed request must not destroy service for the
//! requests that follow it.

use vstd::prelude::*;

verus! {

/// Why a request failed.
#[derive(Clone, Copy, PartialEq, Eq, Structural, Debug)]
pub enum FsError {
    /// The requested name or inode corresponds to no live binding.
    NotFound,
    /// The operation was applied to the wrong object kind, such as reading
    /// a directory.
    TypeMismatch,
    /// The store returned an object whose kind is neither directory nor
    /// file.
    UnsupportedObject,
    /// A protocol violation between bridge and engine: an inode that was
    /// never allocated, or a directory listing resumed at an invalid
    /// cursor.
    InternalInconsistency,
}

} // verus!
