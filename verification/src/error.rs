//! Error kinds and the status codes they collapse to at the host boundary.

use vstd::prelude::*;

verus! {

/// Why an operation was abandoned.
#[derive(Clone, Copy, Debug, PartialEq, Eq, Structural)]
pub enum CryptoError {
    /// A caller-supplied argument is malformed.
    InvalidArgument,
    /// The input does not start with the container magic.
    InvalidFormat,
    /// The container declares a version other than the supported one.
    UnsupportedVersion,
    /// The input ends in the middle of a frame.
    TruncatedFrame,
    /// The authentication tag did not verify: wrong password, wrong file or
    /// tampering. The three are deliberately not told apart.
    AuthFail,
    /// The input ended before a field that had to be read in full.
    IoError,
    /// The cipher refused the request.
    InternalFault,
}

/// Status code of a completed operation.
pub const STATUS_OK: i32 = 0;

/// Status code of a rejected argument.
pub const STATUS_INVALID_ARGUMENT: i32 = -1;

/// Status code of every other failure.
pub const STATUS_FAILED: i32 = -2;

/// The status code that stands for `e` at the host boundary.
pub open spec fn status_of_error(e: CryptoError) -> i32 {
    if e == CryptoError::InvalidArgument {
        STATUS_INVALID_ARGUMENT
    } else {
        STATUS_FAILED
    }
}

/// Collapses an error kind to its status code: `-1` for a rejected argument,
/// `-2` for everything else.
pub fn error_code(e: CryptoError) -> (code: i32)
    ensures
        code == status_of_error(e),
        code < 0,
{
    match e {
        CryptoError::InvalidArgument => STATUS_INVALID_ARGUMENT,
        _ => STATUS_FAILED,
    }
}

} // verus!
