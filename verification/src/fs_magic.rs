//! The magic numbers with which `statfs(2)` tells file systems apart.

use vstd::prelude::*;

verus! {

/// `binfmt_misc`.
pub const BINFMTFS_MAGIC: i64 = 0x42494e4d;

/// Control groups, version 2.
pub const CGROUP2_SUPER_MAGIC: i64 = 0x63677270;

/// Control groups, version 1.
pub const CGROUP_SUPER_MAGIC: i64 = 0x0027e0eb;

/// `configfs`.
pub const CONFIGFS_MAGIC: i64 = 0x62656570;

/// `debugfs`.
pub const DEBUGFS_MAGIC: i64 = 0x64626720;

/// `devpts`.
pub const DEVPTS_SUPER_MAGIC: i64 = 0x00001cd1;

/// `efivarfs`.
pub const EFIVARFS_MAGIC: i64 = 0xde5e81e4;

/// The control file system of FUSE.
pub const FUSE_CTL_SUPER_MAGIC: i64 = 0x65735543;

/// `hugetlbfs`.
pub const HUGETLBFS_MAGIC: i64 = 0x958458f6;

/// POSIX message queues.
pub const MQUEUE_MAGIC: i64 = 0x19800202;

/// `nfsd`.
pub const NFSD_MAGIC: i64 = 0x6e667364;

/// `proc`.
pub const PROC_SUPER_MAGIC: i64 = 0x00009fa0;

/// `pstore`.
pub const PSTOREFS_MAGIC: i64 = 0x6165676c;

/// `rpc_pipefs`.
pub const RPCAUTH_GSSMAGIC: i64 = 0x67596969;

/// `securityfs`.
pub const SECURITYFS_MAGIC: i64 = 0x73636673;

/// `selinuxfs`.
pub const SELINUX_MAGIC: i64 = 0xf97cff8c;

/// `smackfs`.
pub const SMACK_MAGIC: i64 = 0x43415d53;

/// `sysfs`.
pub const SYSFS_MAGIC: i64 = 0x62656572;

/// FAT.
pub const MSDOS_SUPER_MAGIC: i64 = 0x00004d44;

/// FUSE.
pub const FUSE_SUPER_MAGIC: i64 = 0x65735546;

/// ext2, ext3 and ext4.
pub const EXT4_SUPER_MAGIC: i64 = 0x0000ef53;

/// XFS.
pub const XFS_SUPER_MAGIC: i64 = 0x58465342;

/// ZFS.
pub const ZFS_SUPER_MAGIC: i64 = 0x2fc12fc1;

/// The magic numbers of the file systems that hold no files of their own: the kernel makes their
/// contents up.
pub open spec fn virtual_magics() -> Set<i64> {
    set![
        BINFMTFS_MAGIC,
        CGROUP2_SUPER_MAGIC,
        CGROUP_SUPER_MAGIC,
        CONFIGFS_MAGIC,
        DEBUGFS_MAGIC,
        DEVPTS_SUPER_MAGIC,
        EFIVARFS_MAGIC,
        FUSE_CTL_SUPER_MAGIC,
        HUGETLBFS_MAGIC,
        MQUEUE_MAGIC,
        NFSD_MAGIC,
        PROC_SUPER_MAGIC,
        PSTOREFS_MAGIC,
        RPCAUTH_GSSMAGIC,
        SECURITYFS_MAGIC,
        SELINUX_MAGIC,
        SMACK_MAGIC,
        SYSFS_MAGIC,
    ]
}

/// Whether a file system is one that holds no files of its own.
pub fn is_virtual_file_system(magic: i64) -> (r: bool)
    ensures
        r == virtual_magics().contains(magic),
{
    magic == BINFMTFS_MAGIC || magic == CGROUP2_SUPER_MAGIC || magic == CGROUP_SUPER_MAGIC
        || magic == CONFIGFS_MAGIC || magic == DEBUGFS_MAGIC || magic == DEVPTS_SUPER_MAGIC
        || magic == EFIVARFS_MAGIC || magic == FUSE_CTL_SUPER_MAGIC || magic == HUGETLBFS_MAGIC
        || magic == MQUEUE_MAGIC || magic == NFSD_MAGIC || magic == PROC_SUPER_MAGIC
        || magic == PSTOREFS_MAGIC || magic == RPCAUTH_GSSMAGIC || magic == SECURITYFS_MAGIC
        || magic == SELINUX_MAGIC || magic == SMACK_MAGIC || magic == SYSFS_MAGIC
}

/// The eighteen virtual file systems, by their numbers; no other file system is one.
pub proof fn law_virtual_file_systems(magic: i64)
    ensures
        virtual_magics().contains(magic) <==> {
            ||| magic == 0x42494e4d || magic == 0x63677270 || magic == 0x0027e0eb || magic == 0x62656570
            ||| magic == 0x64626720 || magic == 0x00001cd1 || magic == 0xde5e81e4 || magic == 0x65735543
            ||| magic == 0x958458f6 || magic == 0x19800202 || magic == 0x6e667364 || magic == 0x00009fa0
            ||| magic == 0x6165676c || magic == 0x67596969 || magic == 0x73636673 || magic == 0xf97cff8c
            ||| magic == 0x43415d53 || magic == 0x62656572
        },
{
}

} // verus!
