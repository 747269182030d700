//! The error taxonomy shared by the journal and the allocator.

use vstd::prelude::*;

verus! {

/// Why an operation was refused.
#[derive(Clone, Copy, Debug, PartialEq, Eq, Structural)]
pub enum FsError {
    /// An illegal size or a malformed input.
    InvalidArgument,
    /// A magic number that does not match, or head and tail that cannot be.
    InvalidFormat,
    /// An operation on a transaction that is no longer active.
    InvalidState,
    /// The journal cannot reserve the slots a commit needs.
    Full,
    /// No run of free blocks satisfies the request.
    NoSpace,
    /// An extent that reaches past the managed region.
    OutOfRange,
    /// A block in the extent being freed is already free.
    DoubleFree,
}

} // verus!
