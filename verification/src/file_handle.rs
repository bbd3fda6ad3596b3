//! Open-file handles and the predicate set over an opaque open-flags
//! value: the three access-mode queries test the two-bit access mode
//! against its value, and create/truncate/append/sync are mask tests on
//! the flag bits — a small value type with boolean query methods, needing
//! no inheritance.

use vstd::prelude::*;

verus! {

pub const O_RDONLY: i32 = 0o0;

pub const O_WRONLY: i32 = 0o1;

pub const O_RDWR: i32 = 0o2;

/// The mask covering the two-bit access mode that holds one of
/// `O_RDONLY`, `O_WRONLY` and `O_RDWR`.
pub const O_ACCMODE: i32 = 0o3;

pub const O_CREAT: i32 = 0o100;

pub const O_TRUNC: i32 = 0o1000;

pub const O_APPEND: i32 = 0o2000;

pub const O_SYNC: i32 = 0o4010000;

/// The flag-mask queries a handle answers about how its file was opened.
pub trait FileFlags {
    /// The raw open-flags value the queries test.
    spec fn flag_bits(&self) -> i32;

    fn is_read_only(&self) -> (r: bool)
        ensures
            r == (self.flag_bits() & O_ACCMODE == O_RDONLY),
    ;

    fn is_write_only(&self) -> (r: bool)
        ensures
            r == (self.flag_bits() & O_ACCMODE == O_WRONLY),
    ;

    fn is_read_write(&self) -> (r: bool)
        ensures
            r == (self.flag_bits() & O_ACCMODE == O_RDWR),
    ;

    fn is_create(&self) -> (r: bool)
        ensures
            r == (self.flag_bits() & O_CREAT != 0),
    ;

    fn is_truncate(&self) -> (r: bool)
        ensures
            r == (self.flag_bits() & O_TRUNC != 0),
    ;

    fn is_append(&self) -> (r: bool)
        ensures
            r == (self.flag_bits() & O_APPEND != 0),
    ;

    fn is_sync(&self) -> (r: bool)
        ensures
            r == (self.flag_bits() & O_SYNC != 0),
    ;
}

/// One open file: the inode it refers to and the flags it was opened with.
#[derive(Debug, Clone, Copy, PartialEq, Eq, Structural)]
pub struct FileHandle {
    pub inode_id: u64,
    pub flags: i32,
}

impl FileHandle {
    #[inline]
    pub fn new(inode_id: u64, flags: i32) -> (r: Self)
        ensures
            r == (FileHandle { inode_id, flags }),
    {
        FileHandle { inode_id, flags }
    }
}

impl FileFlags for FileHandle {
    open spec fn flag_bits(&self) -> i32 {
        self.flags
    }

    #[inline]
    fn is_read_only(&self) -> (r: bool) {
        self.flags.is_read_only()
    }

    #[inline]
    fn is_write_only(&self) -> (r: bool) {
        self.flags.is_write_only()
    }

    #[inline]
    fn is_read_write(&self) -> (r: bool) {
        self.flags.is_read_write()
    }

    #[inline]
    fn is_create(&self) -> (r: bool) {
        self.flags.is_create()
    }

    #[inline]
    fn is_truncate(&self) -> (r: bool) {
        self.flags.is_truncate()
    }

    #[inline]
    fn is_append(&self) -> (r: bool) {
        self.flags.is_append()
    }

    #[inline]
    fn is_sync(&self) -> (r: bool) {
        self.flags.is_sync()
    }
}

impl FileFlags for i32 {
    open spec fn flag_bits(&self) -> i32 {
        *self
    }

    #[inline]
    fn is_read_only(&self) -> (r: bool) {
        *self & O_ACCMODE == O_RDONLY
    }

    #[inline]
    fn is_write_only(&self) -> (r: bool) {
        *self & O_ACCMODE == O_WRONLY
    }

    #[inline]
    fn is_read_write(&self) -> (r: bool) {
        *self & O_ACCMODE == O_RDWR
    }

    #[inline]
    fn is_create(&self) -> (r: bool) {
        *self & O_CREAT != 0
    }

    #[inline]
    fn is_truncate(&self) -> (r: bool) {
        *self & O_TRUNC != 0
    }

    #[inline]
    fn is_append(&self) -> (r: bool) {
        *self & O_APPEND != 0
    }

    #[inline]
    fn is_sync(&self) -> (r: bool) {
        *self & O_SYNC != 0
    }
}

} // verus!
