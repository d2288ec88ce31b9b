//! Failures of file operations.
use vstd::prelude::*;

verus! {

/// "No such file or directory".
pub const ENOENT: i32 = 2;

/// "Interrupted system call".
pub const EINTR: i32 = 4;

/// "No such device or address": no data is left in a file.
pub const ENXIO: i32 = 6;

/// "Try again".
pub const EAGAIN: i32 = 11;

/// "File exists": the page is there already.
pub const EEXIST: i32 = 17;

/// "Invalid argument".
pub const EINVAL: i32 = 22;

/// Why a read, a write or another file operation failed.
#[derive(Debug, Clone, Copy, PartialEq, Eq, Structural)]
pub enum IoError {
    /// The source ended before the whole buffer was filled.
    UnexpectedEof,
    /// The write ends past the largest file there can be.
    FileTooLarge,
    /// The operating system refused, with this error number.
    Os(i32),
    /// Any other failure.
    Other,
}

} // verus!
