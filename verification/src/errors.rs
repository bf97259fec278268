use vstd::prelude::*;

verus! {

/// The conditions under which an operation on an array can fail.
///
/// Errors are classified by condition rather than by platform error code:
/// an "exact" operation that runs out of bytes, offset arithmetic that
/// leaves the addressable range, a transient interruption (retried by the
/// looping operations, surfaced only by the primitives), an operation the
/// device does not support, and everything else.
#[derive(Clone, Copy, Debug, PartialEq, Eq, Structural)]
pub enum ErrorKind {
    /// An "exact" read or write was exhausted before the buffer was full.
    UnexpectedEof,
    /// Offset arithmetic exceeded the addressable range.
    Overflow,
    /// The underlying call was interrupted and may be retried.
    Interrupted,
    /// The device does not support the requested operation.
    PermissionDenied,
    /// Any other failure of the underlying device.
    Other,
}

} // verus!
