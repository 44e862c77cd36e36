//! The fixed device nodes: null, zero, urandom, kvm, the character and block device nodes,
//! and the root directory of the device file system.
use vstd::prelude::*;
use crate::errno::{Errno, SysResult};
use crate::uapi::FileStat;
use crate::vfs::{FileType, S_IFCHR, S_IFBLK, S_IFDIR};

verus! {

pub const ROOT_INO: u32 = 0;
pub const NULL_INO: u32 = 1;
pub const ZERO_INO: u32 = 2;

pub const BLKRASET: u32 = 0x1262;
pub const BLKRAGET: u32 = 0x1263;
pub const RNDGETENTCNT: u32 = 0x80045200;

/// Entropy `RNDGETENTCNT` reports.
pub const ENTROPY_AVAILABLE: i32 = 256;

/// The `stat` record of a device node owned by root with one link and size 0.
pub open spec fn char_stat(ino: u32, mode: u32) -> FileStat {
    FileStat { st_ino: ino as u64, st_mode: mode, st_nlink: 1, ..FileStat::zeroed_spec() }
}

/// The `stat` record of a character device node.
pub fn char_fstat(ino: u32, mode: u32) -> (r: FileStat)
    ensures
        r == char_stat(ino, mode),
{
    let mut kstat = FileStat::zeroed();
    kstat.st_ino = ino as u64;
    kstat.st_size = 0;
    kstat.st_mode = mode;
    kstat.st_nlink = 1;
    kstat.st_gid = 0;
    kstat.st_uid = 0;
    kstat
}

/// `/dev/null`: reads end at once, writes vanish.
pub struct NullInode {
    pub sno: u32,
}

impl NullInode {
    /// The null node of file system `sno`.
    pub fn new(sno: u32) -> (r: Self)
        ensures
            r.sno == sno,
    {
        NullInode { sno }
    }

    /// Its fixed inode number.
    pub fn get_ino(&self) -> (r: u32)
        ensures
            r == NULL_INO,
    {
        NULL_INO
    }

    /// Its file system number.
    pub fn get_sno(&self) -> (r: u32)
        ensures
            r == self.sno,
    {
        self.sno
    }

    /// Reads give end of file.
    pub fn readat(&self, buf_len: usize, offset: usize) -> (r: SysResult<usize>)
        ensures
            r == Ok::<usize, Errno>(0),
    {
        Ok(0)
    }

    /// Writes are taken whole and dropped.
    pub fn writeat(&self, buf_len: usize, offset: usize) -> (r: SysResult<usize>)
        ensures
            r == Ok::<usize, Errno>(buf_len),
    {
        Ok(buf_len)
    }

    /// Its mode: a character device anyone may read and write.
    pub fn mode(&self) -> (r: u32)
        ensures
            r == S_IFCHR | 0o666,
    {
        S_IFCHR | 0o666
    }

    /// Its `stat` record; the link count stays 0.
    pub fn fstat(&self) -> (r: FileStat)
        ensures
            r == (FileStat { st_ino: NULL_INO as u64, st_mode: S_IFCHR | 0o666, ..FileStat::zeroed_spec() }),
    {
        let mut kstat = FileStat::zeroed();
        kstat.st_ino = NULL_INO as u64;
        kstat.st_size = 0;
        kstat.st_mode = S_IFCHR | 0o666;
        kstat
    }
}

/// `/dev/zero`: reads give zeros, writes vanish.
pub struct ZeroInode {
    pub ino: u32,
}

impl ZeroInode {
    /// The zero node with inode number `ino`.
    pub fn new(ino: u32) -> (r: Self)
        ensures
            r.ino == ino,
    {
        ZeroInode { ino }
    }

    /// Its inode number.
    pub fn get_ino(&self) -> (r: u32)
        ensures
            r == self.ino,
    {
        self.ino
    }

    /// Reads fill the buffer with zeros.
    pub fn readat(&self, buf: &mut Vec<u8>, offset: usize) -> (r: SysResult<usize>)
        ensures
            final(buf)@ == Seq::new(old(buf)@.len(), |i: int| 0u8),
            r == Ok::<usize, Errno>(old(buf)@.len() as usize),
    {
        let n = buf.len();
        crate::bytes::fill_zero(buf, 0, n);
        assert(buf@ =~= Seq::new(old(buf)@.len(), |i: int| 0u8));
        Ok(n)
    }

    /// Writes are taken whole and dropped.
    pub fn writeat(&self, buf_len: usize, offset: usize) -> (r: SysResult<usize>)
        ensures
            r == Ok::<usize, Errno>(buf_len),
    {
        Ok(buf_len)
    }

    /// Its mode.
    pub fn mode(&self) -> (r: u32)
        ensures
            r == S_IFCHR | 0o666,
    {
        S_IFCHR | 0o666
    }

    /// Its `stat` record.
    pub fn fstat(&self) -> (r: FileStat)
        ensures
            r == char_stat(self.ino, S_IFCHR | 0o666),
    {
        char_fstat(self.ino, S_IFCHR | 0o666)
    }
}

/// `/dev/urandom`: random reads, writes vanish.
pub struct URandomInode {
    pub ino: u32,
}

impl URandomInode {
    /// The urandom node with inode number `ino`.
    pub fn new(ino: u32) -> (r: Self)
        ensures
            r.ino == ino,
    {
        URandomInode { ino }
    }

    /// Its inode number.
    pub fn get_ino(&self) -> (r: u32)
        ensures
            r == self.ino,
    {
        self.ino
    }

    /// Writes are taken whole and dropped.
    pub fn writeat(&self, buf_len: usize, offset: usize) -> (r: SysResult<usize>)
        ensures
            r == Ok::<usize, Errno>(buf_len),
    {
        Ok(buf_len)
    }

    /// Its mode.
    pub fn mode(&self) -> (r: u32)
        ensures
            r == S_IFCHR | 0o666,
    {
        S_IFCHR | 0o666
    }

    /// Its `stat` record.
    pub fn fstat(&self) -> (r: FileStat)
        ensures
            r == char_stat(self.ino, S_IFCHR | 0o666),
    {
        char_fstat(self.ino, S_IFCHR | 0o666)
    }

    /// `RNDGETENTCNT` reports the available entropy; other requests give `ENOTTY`.
    pub fn ioctl_value(&self, request: usize) -> (r: SysResult<i32>)
        ensures
            r == (if request as u32 == RNDGETENTCNT { Ok::<i32, Errno>(ENTROPY_AVAILABLE) } else { Err::<i32, Errno>(Errno::ENOTTY) }),
    {
        if request as u32 == RNDGETENTCNT {
            Ok(ENTROPY_AVAILABLE)
        } else {
            Err(Errno::ENOTTY)
        }
    }
}

/// Fills `buf` with the low bytes of the random values given.
pub fn fill_random(buf: &mut Vec<u8>, values: &Vec<u64>)
    requires
        values@.len() == old(buf)@.len(),
    ensures
        final(buf)@ == Seq::new(old(buf)@.len(), |i: int| (values@[i] % 256) as u8),
{
    let n = buf.len();
    let mut i: usize = 0;
    while i < n
        invariant
            n == buf@.len(),
            values@.len() == n,
            i <= n,
            forall|k: int| 0 <= k < i ==> #[trigger] buf@[k] == (values@[k] % 256) as u8,
        decreases n - i,
    {
        buf.set(i, (values[i] % 256) as u8);
        i += 1;
    }
    assert(buf@ =~= Seq::new(old(buf)@.len(), |i: int| (values@[i] % 256) as u8));
}

/// `/dev/kvm`: neither readable nor writable.
pub struct KvmInode {
    pub ino: u32,
}

impl KvmInode {
    /// The kvm node with inode number `ino`.
    pub fn new(ino: u32) -> (r: Self)
        ensures
            r.ino == ino,
    {
        KvmInode { ino }
    }

    /// Reads are not supported.
    pub fn readat(&self, buf_len: usize, offset: usize) -> (r: SysResult<usize>)
        ensures
            r == Err::<usize, Errno>(Errno::EOPNOTSUPP),
    {
        Err(Errno::EOPNOTSUPP)
    }

    /// Writes are not supported.
    pub fn writeat(&self, buf_len: usize, offset: usize) -> (r: SysResult<usize>)
        ensures
            r == Err::<usize, Errno>(Errno::EOPNOTSUPP),
    {
        Err(Errno::EOPNOTSUPP)
    }

    /// Its `stat` record.
    pub fn fstat(&self) -> (r: FileStat)
        ensures
            r == char_stat(self.ino, S_IFCHR | 0o666),
    {
        char_fstat(self.ino, S_IFCHR | 0o666)
    }
}

/// A character device node, over the driver registered under `driver`.
pub struct CharDevInode {
    pub ino: u32,
    pub driver: u32,
}

impl CharDevInode {
    /// The node with inode number `ino` over driver `driver`.
    pub fn new(ino: u32, driver: u32) -> (r: Self)
        ensures
            r.ino == ino,
            r.driver == driver,
    {
        CharDevInode { ino, driver }
    }

    /// The driver the node stands for.
    pub fn driver(&self) -> (r: u32)
        ensures
            r == self.driver,
    {
        self.driver
    }

    /// Its inode number.
    pub fn get_ino(&self) -> (r: u32)
        ensures
            r == self.ino,
    {
        self.ino
    }

    /// Its mode.
    pub fn mode(&self) -> (r: u32)
        ensures
            r == S_IFCHR | 0o666,
    {
        S_IFCHR | 0o666
    }

    /// Its `stat` record.
    pub fn fstat(&self) -> (r: FileStat)
        ensures
            r == char_stat(self.ino, S_IFCHR | 0o666),
    {
        char_fstat(self.ino, self.mode())
    }
}

/// A block device node over a driver of `block_count` blocks of `block_size` bytes.
pub struct BlockDevInode {
    pub ino: u32,
    pub driver: u32,
    pub block_size: usize,
    pub block_count: u64,
    pub read_only: bool,
}

/// A block-device request.
#[derive(Clone, Copy, PartialEq, Eq, Structural, Debug)]
pub enum BlockRequest {
    SetReadahead,
    GetReadahead,
}

impl BlockDevInode {
    /// The node with inode number `ino` over the given driver geometry.
    pub fn new(ino: u32, driver: u32, block_size: usize, block_count: u64, read_only: bool) -> (r: Self)
        ensures
            r == (BlockDevInode { ino, driver, block_size, block_count, read_only }),
    {
        BlockDevInode { ino, driver, block_size, block_count, read_only }
    }

    /// The driver the node stands for.
    pub fn driver(&self) -> (r: u32)
        ensures
            r == self.driver,
    {
        self.driver
    }

    /// The device's size in bytes.
    pub fn size(&self) -> (r: SysResult<u64>)
        requires
            self.block_size * self.block_count <= u64::MAX,
        ensures
            r == Ok::<u64, Errno>((self.block_size * self.block_count) as u64),
    {
        Ok(self.block_size as u64 * self.block_count)
    }

    /// Writes are refused on a read-only device.
    pub fn write_check(&self) -> (r: SysResult<()>)
        ensures
            r == (if self.read_only { Err::<(), Errno>(Errno::EROFS) } else { Ok::<(), Errno>(()) }),
    {
        if self.read_only {
            return Err(Errno::EROFS);
        }
        Ok(())
    }

    /// The result of a transfer of `len` bytes by the driver: all of them, or `EIO`.
    pub fn transfer_result(&self, driver_ok: bool, len: usize) -> (r: SysResult<usize>)
        ensures
            r == (if driver_ok { Ok::<usize, Errno>(len) } else { Err::<usize, Errno>(Errno::EIO) }),
    {
        if driver_ok { Ok(len) } else { Err(Errno::EIO) }
    }

    /// Its mode.
    pub fn mode(&self) -> (r: u32)
        ensures
            r == S_IFBLK | 0o666,
    {
        S_IFBLK | 0o666
    }

    /// Its `stat` record: a block device of the driver's size.
    pub fn fstat(&self) -> (r: SysResult<FileStat>)
        requires
            self.block_size * self.block_count <= u64::MAX,
        ensures
            r == Ok::<FileStat, Errno>(FileStat { st_ino: self.ino as u64, st_mode: S_IFBLK | 0o660, st_nlink: 1,
                st_size: ((self.block_size * self.block_count) as u64) as i64, ..FileStat::zeroed_spec() }),
    {
        let mut kstat = FileStat::zeroed();
        kstat.st_ino = self.ino as u64;
        kstat.st_mode = S_IFBLK | 0o660;
        kstat.st_nlink = 1;
        kstat.st_uid = 0;
        kstat.st_gid = 0;
        kstat.st_size = self.size()? as i64;
        Ok(kstat)
    }

    /// The block request an ioctl number names, or `ENOTTY`.
    pub fn request(&self, request: usize) -> (r: SysResult<BlockRequest>)
        ensures
            r == (if request as u32 == BLKRASET { Ok::<BlockRequest, Errno>(BlockRequest::SetReadahead) }
                else if request as u32 == BLKRAGET { Ok::<BlockRequest, Errno>(BlockRequest::GetReadahead) }
                else { Err::<BlockRequest, Errno>(Errno::ENOTTY) }),
    {
        let code = request as u32;
        if code == BLKRASET {
            Ok(BlockRequest::SetReadahead)
        } else if code == BLKRAGET {
            Ok(BlockRequest::GetReadahead)
        } else {
            Err(Errno::ENOTTY)
        }
    }
}

/// The kind of device a driver provides.
#[derive(Clone, Copy, PartialEq, Eq, Structural, Debug)]
pub enum DeviceType {
    Block,
    Char,
    Rtc,
}

/// The file type a device of the given kind appears as.
pub fn device_file_type(t: DeviceType) -> (r: FileType)
    ensures
        r == match t { DeviceType::Block => FileType::BlockDevice, _ => FileType::CharDevice },
{
    match t {
        DeviceType::Block => FileType::BlockDevice,
        DeviceType::Char => FileType::CharDevice,
        DeviceType::Rtc => FileType::CharDevice,
    }
}

/// What the device root lists at position `index`.
#[derive(Clone, Copy, PartialEq, Eq, Structural, Debug)]
pub enum RootDent {
    /// A fixed entry: `.`, `null` or `zero` (0, 1, 2), with its inode number and type.
    Fixed(u32, u32, FileType),
    /// The driver at this position, with the inode number it is listed under.
    Driver(usize, u32),
    /// Past the end.
    End,
}

/// The root of the device file system.
pub struct RootInode {
    pub sno: u32,
}

impl RootInode {
    /// The root of file system `sno`.
    pub fn new(sno: u32) -> (r: Self)
        ensures
            r.sno == sno,
    {
        RootInode { sno }
    }

    /// Its fixed inode number.
    pub fn get_ino(&self) -> (r: u32)
        ensures
            r == ROOT_INO,
    {
        ROOT_INO
    }

    /// Its mode: a directory anyone may list.
    pub fn mode(&self) -> (r: u32)
        ensures
            r == S_IFDIR | 0o755,
    {
        S_IFDIR | 0o755
    }

    /// What is listed at `index` with `driver_count` drivers registered: `.`, `null` and
    /// `zero` first, then the drivers under inode numbers from 3, the next index after a
    /// driver entry being its position plus 3.
    pub fn dent_at(&self, index: usize, driver_count: usize) -> (r: RootDent)
        requires
            driver_count <= 0xFFFF_FFF0,
        ensures
            index == 0 ==> r == RootDent::Fixed(0, ROOT_INO, FileType::Directory),
            index == 1 ==> r == RootDent::Fixed(1, NULL_INO, FileType::Regular),
            index == 2 ==> r == RootDent::Fixed(2, ZERO_INO, FileType::Regular),
            index > 2 && index - 2 < driver_count ==> r == RootDent::Driver((index - 2) as usize, (3 + index - 2) as u32),
            index > 2 && index - 2 >= driver_count ==> r == RootDent::End,
    {
        if index == 0 {
            return RootDent::Fixed(0, ROOT_INO, FileType::Directory);
        }
        if index == 1 {
            return RootDent::Fixed(1, NULL_INO, FileType::Regular);
        }
        if index == 2 {
            return RootDent::Fixed(2, ZERO_INO, FileType::Regular);
        }
        let pos = index - 2;
        if pos < driver_count {
            RootDent::Driver(pos, 3 + pos as u32)
        } else {
            RootDent::End
        }
    }

    /// The inode number of a fixed name: `null`, `zero`; `ENOENT` otherwise.
    pub fn lookup(&self, name: &[u8]) -> (r: SysResult<u32>)
        ensures
            r == (if name@ == seq![110u8, 117u8, 108u8, 108u8] { Ok::<u32, Errno>(NULL_INO) }
                else if name@ == seq![122u8, 101u8, 114u8, 111u8] { Ok::<u32, Errno>(ZERO_INO) }
                else { Err::<u32, Errno>(Errno::ENOENT) }),
    {
        let null_name: Vec<u8> = vec![110u8, 117u8, 108u8, 108u8];
        let zero_name: Vec<u8> = vec![122u8, 101u8, 114u8, 111u8];
        assert(null_name@ =~= seq![110u8, 117u8, 108u8, 108u8]);
        assert(zero_name@ =~= seq![122u8, 101u8, 114u8, 111u8]);
        if crate::bytes::bytes_eq(name, null_name.as_slice()) {
            Ok(NULL_INO)
        } else if crate::bytes::bytes_eq(name, zero_name.as_slice()) {
            Ok(ZERO_INO)
        } else {
            Err(Errno::ENOENT)
        }
    }
}

} // verus!
