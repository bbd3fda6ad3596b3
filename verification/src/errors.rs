//! Error taxonomy of the filesystem core, and its mapping onto the POSIX
//! error-code space used by the kernel-facing adapter.

use vstd::prelude::*;

verus! {

/// POSIX `EIO`: an underlying read, write or rename failed.
pub const EIO: i32 = 5;

/// POSIX `ENOENT`: an entity that was required to exist is absent.
pub const ENOENT: i32 = 2;

/// POSIX `ENOTDIR`: a directory operation was applied to a file.
pub const ENOTDIR: i32 = 20;

/// POSIX `EISDIR`: a file operation was applied to a directory.
pub const EISDIR: i32 = 21;

/// POSIX `EEXIST`: a name to be created already exists.
pub const EEXIST: i32 = 17;

/// POSIX `EINVAL`: inconsistent block-list or size bookkeeping.
pub const EINVAL: i32 = 22;

/// Everything that can go wrong inside the filesystem core.
///
/// Lookup and allocation errors are returned to the immediate caller and
/// never retried internally; retry policy, if any, belongs to the caller.
#[derive(Debug, Clone)]
pub enum TimeFSError {
    /// An underlying read, write or rename failed during a foreground
    /// operation.
    Io,
    /// The inode or block with this id is absent although it was required
    /// to exist.
    NotFound(u64),
    /// A directory lookup did not find this name.
    NameNotFound(String),
    /// The inode with this id is a file, but a directory was required.
    NotDirectory(u64),
    /// The inode with this id is a directory, but a file was required.
    IsDirectory(u64),
    /// A create found this name already present under the parent.
    NameExists(String),
    /// The block list and the recorded size of a file inode disagree.
    BlockIndexError,
    /// Background persistence could not complete.
    FlushFailed,
}

impl TimeFSError {
    /// The POSIX error code that the kernel-facing adapter reports for this
    /// error; no error kind is swallowed silently.
    pub fn error_code(&self) -> (code: i32)
        ensures
            code == match self {
                TimeFSError::Io => EIO,
                TimeFSError::NotFound(_) => ENOENT,
                TimeFSError::NameNotFound(_) => ENOENT,
                TimeFSError::NotDirectory(_) => ENOTDIR,
                TimeFSError::IsDirectory(_) => EISDIR,
                TimeFSError::NameExists(_) => EEXIST,
                TimeFSError::BlockIndexError => EINVAL,
                TimeFSError::FlushFailed => EIO,
            },
    {
        match self {
            TimeFSError::Io => EIO,
            TimeFSError::NotFound(_) => ENOENT,
            TimeFSError::NameNotFound(_) => ENOENT,
            TimeFSError::NotDirectory(_) => ENOTDIR,
            TimeFSError::IsDirectory(_) => EISDIR,
            TimeFSError::NameExists(_) => EEXIST,
            TimeFSError::BlockIndexError => EINVAL,
            TimeFSError::FlushFailed => EIO,
        }
    }
}

} // verus!
