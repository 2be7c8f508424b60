//! Kinds of failure.

use vstd::prelude::*;

verus! {

/// The kind of a failure, as I/O errors are sorted.
#[derive(Debug, Clone, Copy, PartialEq, Eq, Structural)]
pub enum ErrorKind {
    /// The guest registered no such buffer.
    NotFound,
    /// The caller passed something that cannot be used.
    InvalidInput,
    /// The guest's buffer holds something that cannot be used.
    InvalidData,
    /// The host does not permit it.
    PermissionDenied,
    /// Anything else.
    Other,
}

} // verus!
