//! File modes as `stat(2)` reports them.

use vstd::prelude::*;

verus! {

/// The bits of a mode that hold the file type.
pub const IFMT: u32 = 0xf000;

/// A socket.
pub const IFSOCK: u32 = 0xc000;

/// A symbolic link.
pub const IFLNK: u32 = 0xa000;

/// A regular file.
pub const IFREG: u32 = 0x8000;

/// A block device.
pub const IFBLK: u32 = 0x6000;

/// A directory.
pub const IFDIR: u32 = 0x4000;

/// A character device.
pub const IFCHR: u32 = 0x2000;

/// A named pipe.
pub const IFIFO: u32 = 0x1000;

/// What `stat(2)` reports of a file, as far as an archive needs it.
#[derive(Clone, Copy, Debug, PartialEq, Eq, Structural)]
pub struct FileStat {
    /// The device the file lies on.
    pub st_dev: u64,
    /// The inode.
    pub st_ino: u64,
    /// File type and permissions.
    pub st_mode: u32,
    /// The number of hard links.
    pub st_nlink: u64,
    /// The owner.
    pub st_uid: u32,
    /// The group.
    pub st_gid: u32,
    /// The device that a device node stands for.
    pub st_rdev: u64,
    /// The size in bytes.
    pub st_size: i64,
    /// The seconds of the time of the last change.
    pub st_mtime: i64,
    /// The nanoseconds of the time of the last change.
    pub st_mtime_nsec: i64,
}

impl FileStat {
    /// The stat of an entry that stands for no file on disk: all zero.
    pub open spec fn spec_zeroed() -> FileStat {
        FileStat {
            st_dev: 0,
            st_ino: 0,
            st_mode: 0,
            st_nlink: 0,
            st_uid: 0,
            st_gid: 0,
            st_rdev: 0,
            st_size: 0,
            st_mtime: 0,
            st_mtime_nsec: 0,
        }
    }

    /// The stat of an entry that stands for no file on disk.
    pub fn zeroed() -> (r: FileStat)
        ensures
            r == FileStat::spec_zeroed(),
    {
        FileStat {
            st_dev: 0,
            st_ino: 0,
            st_mode: 0,
            st_nlink: 0,
            st_uid: 0,
            st_gid: 0,
            st_rdev: 0,
            st_size: 0,
            st_mtime: 0,
            st_mtime_nsec: 0,
        }
    }
}

} // verus!
