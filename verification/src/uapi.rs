//! User-visible records: `statfs` and `stat` results.
use vstd::prelude::*;

verus! {

/// Result of `statfs`.
#[derive(Clone, Copy, Debug, PartialEq, Eq, Structural)]
pub struct Statfs {
    pub f_type: u64,
    pub f_bsize: u64,
    pub f_blocks: u64,
    pub f_bfree: u64,
    pub f_bavail: u64,
    pub f_files: u64,
    pub f_ffree: u64,
    pub f_fsid: u64,
    pub f_namelen: u64,
    pub f_frsize: u64,
    pub f_flag: u64,
}

/// Result of `stat`.
#[derive(Clone, Copy, Debug, PartialEq, Eq, Structural)]
pub struct FileStat {
    pub st_dev: u64,
    pub st_ino: u64,
    pub st_mode: u32,
    pub st_nlink: u32,
    pub st_uid: u32,
    pub st_gid: u32,
    pub st_rdev: u64,
    pub st_size: i64,
    pub st_blksize: i32,
    pub st_blocks: u64,
    pub st_atime_sec: i64,
    pub st_mtime_sec: i64,
    pub st_ctime_sec: i64,
}

impl FileStat {
    /// The all-zero record.
    pub open spec fn zeroed_spec() -> FileStat {
        FileStat {
            st_dev: 0,
            st_ino: 0,
            st_mode: 0,
            st_nlink: 0,
            st_uid: 0,
            st_gid: 0,
            st_rdev: 0,
            st_size: 0,
            st_blksize: 0,
            st_blocks: 0,
            st_atime_sec: 0,
            st_mtime_sec: 0,
            st_ctime_sec: 0,
        }
    }

    /// An all-zero record.
    pub fn zeroed() -> (r: Self)
        ensures
            r == Self::zeroed_spec(),
            r == (FileStat {
                st_dev: 0,
                st_ino: 0,
                st_mode: 0,
                st_nlink: 0,
                st_uid: 0,
                st_gid: 0,
                st_rdev: 0,
                st_size: 0,
                st_blksize: 0,
                st_blocks: 0,
                st_atime_sec: 0,
                st_mtime_sec: 0,
                st_ctime_sec: 0,
            }),
    {
        FileStat {
            st_dev: 0,
            st_ino: 0,
            st_mode: 0,
            st_nlink: 0,
            st_uid: 0,
            st_gid: 0,
            st_rdev: 0,
            st_size: 0,
            st_blksize: 0,
            st_blocks: 0,
            st_atime_sec: 0,
            st_mtime_sec: 0,
            st_ctime_sec: 0,
        }
    }
}

} // verus!
