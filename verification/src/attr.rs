//! File attributes: the POSIX-style metadata record kept per inode, its
//! file/directory kind, and a builder that assembles a record field by
//! field. Times are seconds since the epoch, supplied by the caller;
//! the owning user and group are read from the running process.

use vstd::prelude::*;
use crate::block::BLOCK_SIZE;

verus! {

/// Whether an inode is a regular file or a directory.
#[derive(Debug, Clone, Copy, PartialEq, Eq, Structural)]
pub enum FileType {
    RegularFile,
    Directory,
}

/// The POSIX-style attribute record of one inode.
#[derive(Debug, Clone, Copy, PartialEq, Eq, Structural)]
pub struct FileAttr {
    pub ino: u64,
    pub size: u64,
    pub blocks: u64,
    pub atime: u64,
    pub mtime: u64,
    pub ctime: u64,
    pub crtime: u64,
    pub kind: FileType,
    pub perm: u16,
    pub nlink: u32,
    pub uid: u32,
    pub gid: u32,
    pub rdev: u32,
    pub flags: u32,
    pub blksize: u32,
}

/// Relies on users::get_current_uid: the uid of the running process.
#[verifier::external_body]
fn current_uid() -> u32 {
    users::get_current_uid()
}

/// Relies on users::get_current_gid: the gid of the running process.
#[verifier::external_body]
fn current_gid() -> u32 {
    users::get_current_gid()
}

/// Assembles a [`FileAttr`] field by field, starting from a plain regular
/// file owned by the running user.
pub struct FileAttrBuilder {
    pub ino: u64,
    pub size: u64,
    pub blocks: u64,
    pub atime: u64,
    pub mtime: u64,
    pub ctime: u64,
    pub crtime: u64,
    pub kind: FileType,
    pub perm: u16,
    pub nlink: u32,
    pub uid: u32,
    pub gid: u32,
    pub rdev: u32,
    pub flags: u32,
    pub blksize: u32,
}

impl Default for FileAttrBuilder {
    /// A builder for a fresh zero-length regular file with default
    /// permissions, owned by the running user, with all times zero until
    /// a clock value is supplied.
    fn default() -> (r: Self)
        ensures
            r.ino == 0,
            r.size == 0,
            r.blocks == 0,
            r.atime == 0 && r.mtime == 0 && r.ctime == 0 && r.crtime == 0,
            r.kind == FileType::RegularFile,
            r.perm == 0o755,
            r.nlink == 1,
            r.rdev == 0,
            r.flags == 0,
            r.blksize == BLOCK_SIZE,
    {
        FileAttrBuilder {
            ino: 0,
            size: 0,
            blocks: 0,
            atime: 0,
            mtime: 0,
            ctime: 0,
            crtime: 0,
            kind: FileType::RegularFile,
            perm: 0o755,
            nlink: 1,
            uid: current_uid(),
            gid: current_gid(),
            rdev: 0,
            flags: 0,
            blksize: BLOCK_SIZE,
        }
    }
}

impl FileAttrBuilder {
    pub fn ino(self, ino: u64) -> (r: Self)
        ensures
            r == (FileAttrBuilder { ino, ..self }),
    {
        FileAttrBuilder { ino, ..self }
    }

    pub fn size(self, size: u64) -> (r: Self)
        ensures
            r == (FileAttrBuilder { size, ..self }),
    {
        FileAttrBuilder { size, ..self }
    }

    pub fn blocks(self, blocks: u64) -> (r: Self)
        ensures
            r == (FileAttrBuilder { blocks, ..self }),
    {
        FileAttrBuilder { blocks, ..self }
    }

    pub fn atime(self, atime: u64) -> (r: Self)
        ensures
            r == (FileAttrBuilder { atime, ..self }),
    {
        FileAttrBuilder { atime, ..self }
    }

    pub fn mtime(self, mtime: u64) -> (r: Self)
        ensures
            r == (FileAttrBuilder { mtime, ..self }),
    {
        FileAttrBuilder { mtime, ..self }
    }

    pub fn ctime(self, ctime: u64) -> (r: Self)
        ensures
            r == (FileAttrBuilder { ctime, ..self }),
    {
        FileAttrBuilder { ctime, ..self }
    }

    pub fn crtime(self, crtime: u64) -> (r: Self)
        ensures
            r == (FileAttrBuilder { crtime, ..self }),
    {
        FileAttrBuilder { crtime, ..self }
    }

    pub fn kind(self, kind: FileType) -> (r: Self)
        ensures
            r == (FileAttrBuilder { kind, ..self }),
    {
        FileAttrBuilder { kind, ..self }
    }

    pub fn perm(self, perm: u16) -> (r: Self)
        ensures
            r == (FileAttrBuilder { perm, ..self }),
    {
        FileAttrBuilder { perm, ..self }
    }

    pub fn nlink(self, nlink: u32) -> (r: Self)
        ensures
            r == (FileAttrBuilder { nlink, ..self }),
    {
        FileAttrBuilder { nlink, ..self }
    }

    pub fn uid(self, uid: u32) -> (r: Self)
        ensures
            r == (FileAttrBuilder { uid, ..self }),
    {
        FileAttrBuilder { uid, ..self }
    }

    pub fn gid(self, gid: u32) -> (r: Self)
        ensures
            r == (FileAttrBuilder { gid, ..self }),
    {
        FileAttrBuilder { gid, ..self }
    }

    pub fn rdev(self, rdev: u32) -> (r: Self)
        ensures
            r == (FileAttrBuilder { rdev, ..self }),
    {
        FileAttrBuilder { rdev, ..self }
    }

    pub fn blksize(self, blksize: u32) -> (r: Self)
        ensures
            r == (FileAttrBuilder { blksize, ..self }),
    {
        FileAttrBuilder { blksize, ..self }
    }

    /// Record a content size, deriving the occupied block count from it:
    /// the number of blocks a file of this size fills, the trailing one
    /// possibly only partially.
    pub fn with_size(self, size: u64) -> (r: Self)
        requires
            size <= u64::MAX - BLOCK_SIZE,
        ensures
            r == (FileAttrBuilder {
                size,
                blocks: ((size + BLOCK_SIZE - 1) / (BLOCK_SIZE as int)) as u64,
                blksize: BLOCK_SIZE,
                ..self
            }),
    {
        let blocks = (size + (BLOCK_SIZE as u64 - 1)) / BLOCK_SIZE as u64;
        FileAttrBuilder { size, blocks, blksize: BLOCK_SIZE, ..self }
    }

    /// Record that the file holds no content at all.
    pub fn zero_size(self) -> (r: Self)
        ensures
            r == (FileAttrBuilder { size: 0u64, blocks: 0u64, blksize: BLOCK_SIZE, ..self }),
    {
        FileAttrBuilder { size: 0, blocks: 0, blksize: BLOCK_SIZE, ..self }
    }

    /// Stamp every time field with the given clock value.
    pub fn with_now(self, now: u64) -> (r: Self)
        ensures
            r == (FileAttrBuilder { atime: now, mtime: now, ctime: now, crtime: now, ..self }),
    {
        FileAttrBuilder { atime: now, mtime: now, ctime: now, crtime: now, ..self }
    }

    /// Own the record by the running user and group.
    pub fn with_current_user(self) -> (r: Self)
        ensures
            r == (FileAttrBuilder { uid: r.uid, gid: r.gid, ..self }),
    {
        FileAttrBuilder { uid: current_uid(), gid: current_gid(), ..self }
    }

    /// Mark the record as a regular file.
    pub fn with_regular_file(self) -> (r: Self)
        ensures
            r == (FileAttrBuilder { kind: FileType::RegularFile, ..self }),
    {
        FileAttrBuilder { kind: FileType::RegularFile, ..self }
    }

    /// Mark the record as a directory, which always links to itself and
    /// its parent.
    pub fn with_directory(self) -> (r: Self)
        ensures
            r == (FileAttrBuilder { kind: FileType::Directory, nlink: 2u32, ..self }),
    {
        FileAttrBuilder { kind: FileType::Directory, nlink: 2, ..self }
    }

    pub fn with_owner_read_write_other_read_write(self) -> (r: Self)
        ensures
            r == (FileAttrBuilder { perm: 0o755u16, ..self }),
    {
        FileAttrBuilder { perm: 0o755, ..self }
    }

    pub fn with_owner_read_write_other_read(self) -> (r: Self)
        ensures
            r == (FileAttrBuilder { perm: 0o644u16, ..self }),
    {
        FileAttrBuilder { perm: 0o644, ..self }
    }

    pub fn with_everyone_read_write(self) -> (r: Self)
        ensures
            r == (FileAttrBuilder { perm: 0o777u16, ..self }),
    {
        FileAttrBuilder { perm: 0o777, ..self }
    }

    /// The assembled record. Every field carries over as recorded — in
    /// particular `size` and `blocks` reflect the tracked content size and
    /// block count, never the inode number.
    pub fn build(self) -> (r: FileAttr)
        ensures
            r == (FileAttr {
                ino: self.ino,
                size: self.size,
                blocks: self.blocks,
                atime: self.atime,
                mtime: self.mtime,
                ctime: self.ctime,
                crtime: self.crtime,
                kind: self.kind,
                perm: self.perm,
                nlink: self.nlink,
                uid: self.uid,
                gid: self.gid,
                rdev: self.rdev,
                flags: self.flags,
                blksize: self.blksize,
            }),
    {
        FileAttr {
            ino: self.ino,
            size: self.size,
            blocks: self.blocks,
            atime: self.atime,
            mtime: self.mtime,
            ctime: self.ctime,
            crtime: self.crtime,
            kind: self.kind,
            perm: self.perm,
            nlink: self.nlink,
            uid: self.uid,
            gid: self.gid,
            rdev: self.rdev,
            flags: self.flags,
            blksize: self.blksize,
        }
    }
}

} // verus!
