//! File-system-wide vocabulary: mode bits, file types, mount options, open-file flags,
//! seek origins, directory results and readiness events.
use vstd::prelude::*;
use crate::errno::{Errno, SysResult};

verus! {

pub const S_IFMT: u32 = 0o170000;
pub const S_IFSOCK: u32 = 0o140000;
pub const S_IFLNK: u32 = 0o120000;
pub const S_IFREG: u32 = 0o100000;
pub const S_IFBLK: u32 = 0o060000;
pub const S_IFDIR: u32 = 0o040000;
pub const S_IFCHR: u32 = 0o020000;
pub const S_IFIFO: u32 = 0o010000;
pub const S_ISUID: u32 = 0o4000;
pub const S_ISGID: u32 = 0o2000;
pub const S_ISVTX: u32 = 0o1000;
pub const S_IXGRP: u32 = 0o010;

/// `statfs` flag: mounted read-only.
pub const ST_RDONLY: u64 = 1;

pub const READ_READY: u32 = 0x001;
pub const WRITE_READY: u32 = 0x004;
pub const ERROR: u32 = 0x008;
pub const HANG_UP: u32 = 0x010;

/// The kind of a file.
#[derive(Clone, Copy, PartialEq, Eq, Structural, Debug)]
pub enum FileType {
    Regular,
    Directory,
    CharDevice,
    BlockDevice,
    Fifo,
    Socket,
    Symlink,
    Unknown,
}

/// The file type that the type bits of a mode name.
pub open spec fn spec_file_type_of_mode(mode: u32) -> FileType {
    let t = mode & S_IFMT;
    if t == S_IFREG { FileType::Regular }
    else if t == S_IFDIR { FileType::Directory }
    else if t == S_IFCHR { FileType::CharDevice }
    else if t == S_IFBLK { FileType::BlockDevice }
    else if t == S_IFIFO { FileType::Fifo }
    else if t == S_IFSOCK { FileType::Socket }
    else if t == S_IFLNK { FileType::Symlink }
    else { FileType::Unknown }
}

/// The file type that the type bits of a mode name.
pub fn file_type_of_mode(mode: u32) -> (r: FileType)
    ensures
        r == spec_file_type_of_mode(mode),
{
    let t = mode & S_IFMT;
    if t == S_IFREG { FileType::Regular }
    else if t == S_IFDIR { FileType::Directory }
    else if t == S_IFCHR { FileType::CharDevice }
    else if t == S_IFBLK { FileType::BlockDevice }
    else if t == S_IFIFO { FileType::Fifo }
    else if t == S_IFSOCK { FileType::Socket }
    else if t == S_IFLNK { FileType::Symlink }
    else { FileType::Unknown }
}

/// Options a file system is mounted with.
#[derive(Clone, Copy, PartialEq, Eq, Structural, Debug)]
pub struct MountOptions {
    pub read_only: bool,
}

impl MountOptions {
    /// Mount options with the given read-only setting.
    pub fn new(read_only: bool) -> (r: Self)
        ensures
            r.read_only == read_only,
    {
        MountOptions { read_only }
    }
}

/// The `statfs` flags of a file system: read-only or none.
pub fn statfs_flags(read_only: bool) -> (r: u64)
    ensures
        r == (if read_only { ST_RDONLY } else { 0 }),
{
    if read_only { ST_RDONLY } else { 0 }
}

/// How an open file may be used.
#[derive(Clone, Copy, PartialEq, Eq, Structural, Debug)]
pub struct FileFlags {
    pub readable: bool,
    pub writable: bool,
    pub blocked: bool,
    pub append: bool,
    pub direct: bool,
}

impl FileFlags {
    /// Read-only, blocking, neither appending nor direct.
    pub fn readonly() -> (r: Self)
        ensures
            r == (FileFlags { readable: true, writable: false, blocked: true, append: false, direct: false }),
    {
        FileFlags { readable: true, writable: false, blocked: true, append: false, direct: false }
    }
}

/// Where a seek counts from.
#[derive(Clone, Copy, PartialEq, Eq, Structural, Debug)]
pub enum SeekWhence {
    BEG,
    CUR,
    END,
}

/// One directory entry as reported to a reader.
pub struct DirResult {
    pub name: Vec<u8>,
    pub ino: u32,
    pub file_type: FileType,
    pub len: u16,
}

/// Whether a readiness mask has any of the bits of `bit`.
pub open spec fn has_event(mask: u32, bit: u32) -> bool {
    mask & bit != 0
}

/// Whether a readiness mask has any of the bits of `bit`.
pub fn event_contains(mask: u32, bit: u32) -> (r: bool)
    ensures
        r == has_event(mask, bit),
{
    mask & bit != 0
}

} // verus!
