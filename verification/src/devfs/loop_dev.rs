//! Loop block devices: binding a backing file, its status record, `stat` and ioctls.
use vstd::prelude::*;
use crate::errno::{Errno, SysResult};
use crate::uapi::FileStat;
use crate::vfs::S_IFBLK;

verus! {

pub const LOOP_SET_FD: usize = 0x4C00;
pub const LOOP_CLR_FD: usize = 0x4C01;
pub const LOOP_SET_STATUS: usize = 0x4C02;
pub const LOOP_GET_STATUS: usize = 0x4C03;
pub const LOOP_BLKGETSIZE64: usize = 0x80081272;

/// Major number of loop devices.
pub const LOOP_MAJOR: u64 = 7;

/// A loop-device request.
#[derive(Clone, Copy, PartialEq, Eq, Structural, Debug)]
pub enum LoopRequest {
    SetFd,
    ClrFd,
    SetStatus,
    GetStatus,
    GetSize64,
}

/// The status record of a loop device, as `struct loop_info` holds it.
pub struct LoopInfo {
    pub lo_number: i32,
    pub lo_device: u32,
    pub lo_inode: usize,
    pub lo_rdevice: u32,
    pub lo_offset: i32,
    pub lo_encrypt_type: i32,
    pub lo_encrypt_key_size: i32,
    pub lo_flags: i32,
    pub lo_name: Vec<u8>,
    pub lo_encrypt_key: Vec<u8>,
    pub lo_init: (usize, usize),
    pub reserved: Vec<u8>,
}

/// A status record with everything zero.
pub open spec fn zero_info(i: LoopInfo) -> bool {
    &&& i.lo_number == 0 && i.lo_device == 0 && i.lo_inode == 0 && i.lo_rdevice == 0
    &&& i.lo_offset == 0 && i.lo_encrypt_type == 0 && i.lo_encrypt_key_size == 0 && i.lo_flags == 0
    &&& i.lo_name@ == Seq::new(64, |k: int| 0u8)
    &&& i.lo_encrypt_key@ == Seq::new(32, |k: int| 0u8)
    &&& i.lo_init == (0usize, 0usize)
    &&& i.reserved@ == Seq::new(4, |k: int| 0u8)
}

impl LoopInfo {
    /// A status record with everything zero.
    pub fn default_info() -> (r: Self)
        ensures
            zero_info(r),
    {
        let lo_name: Vec<u8> = vec![0u8; 64];
        let lo_encrypt_key: Vec<u8> = vec![0u8; 32];
        let reserved: Vec<u8> = vec![0u8; 4];
        assert(lo_name@ =~= Seq::new(64, |k: int| 0u8));
        assert(lo_encrypt_key@ =~= Seq::new(32, |k: int| 0u8));
        assert(reserved@ =~= Seq::new(4, |k: int| 0u8));
        LoopInfo {
            lo_number: 0,
            lo_device: 0,
            lo_inode: 0,
            lo_rdevice: 0,
            lo_offset: 0,
            lo_encrypt_type: 0,
            lo_encrypt_key_size: 0,
            lo_flags: 0,
            lo_name,
            lo_encrypt_key,
            lo_init: (0, 0),
            reserved,
        }
    }
}

/// A loop device node; `target` is the inode number of the bound backing file.
pub struct LoopInode {
    pub ino: u32,
    pub minor: u32,
    pub target: Option<u32>,
}

/// The device number of loop device `minor`.
pub open spec fn loop_rdev(minor: u32) -> u64 {
    (LOOP_MAJOR << 8u64) | (minor as u64)
}

impl LoopInode {
    /// An unbound loop device.
    pub fn new(ino: u32, minor: u32) -> (r: Self)
        ensures
            r.ino == ino,
            r.minor == minor,
            r.target is None,
    {
        LoopInode { ino, minor, target: None }
    }

    /// Its inode number.
    pub fn get_ino(&self) -> (r: u32)
        ensures
            r == self.ino,
    {
        self.ino
    }

    /// Its device number: major 7 and its minor.
    pub fn rdev(&self) -> (r: u64)
        ensures
            r == loop_rdev(self.minor),
    {
        (LOOP_MAJOR << 8u64) | (self.minor as u64)
    }

    /// Binds a backing file; `EBUSY` when one is bound already.
    pub fn bind_target_inode(&mut self, target_ino: u32) -> (r: SysResult<()>)
        ensures
            old(self).target is Some ==> r == Err::<(), Errno>(Errno::EBUSY) && *final(self) == *old(self),
            old(self).target is None ==> r is Ok && *final(self) == (LoopInode { target: Some(target_ino), ..*old(self) }),
    {
        if self.target.is_some() {
            return Err(Errno::EBUSY);
        }
        self.target = Some(target_ino);
        Ok(())
    }

    /// Unbinds the backing file.
    pub fn clear_target_inode(&mut self)
        ensures
            *final(self) == (LoopInode { target: None, ..*old(self) }),
    {
        self.target = None;
    }

    /// Whether a backing file is bound.
    pub fn is_bound(&self) -> (r: bool)
        ensures
            r == self.target is Some,
    {
        self.target.is_some()
    }

    /// The bound backing file; `ENXIO` when none is.
    pub fn target_inode(&self) -> (r: SysResult<u32>)
        ensures
            r == match self.target { Some(t) => Ok::<u32, Errno>(t), None => Err::<u32, Errno>(Errno::ENXIO) },
    {
        match self.target {
            Some(t) => Ok(t),
            None => Err(Errno::ENXIO),
        }
    }

    /// The status record to report: `EINVAL` for a null address, `ENXIO` when unbound, else the
    /// device's number and its backing file's inode.
    pub fn get_status(&self, arg: usize) -> (r: SysResult<LoopInfo>)
        ensures
            arg == 0 ==> r is Err && r->Err_0 == Errno::EINVAL,
            arg != 0 && self.target is None ==> r is Err && r->Err_0 == Errno::ENXIO,
            arg != 0 && self.target is Some ==> r is Ok && ({
                let i = r->Ok_0;
                &&& i.lo_number == self.minor as i32
                &&& i.lo_inode == self.target->0 as usize
                &&& zero_info(LoopInfo { lo_number: 0, lo_inode: 0, ..i })
            }),
    {
        if arg == 0 {
            return Err(Errno::EINVAL);
        }
        if !self.is_bound() {
            return Err(Errno::ENXIO);
        }
        let target = self.target_inode()?;
        let mut info = LoopInfo::default_info();
        info.lo_number = self.minor as i32;
        info.lo_inode = target as usize;
        Ok(info)
    }

    /// Setting the status only needs a non-null address.
    pub fn set_status_check(&self, arg: usize) -> (r: SysResult<usize>)
        ensures
            r == (if arg == 0 { Err::<usize, Errno>(Errno::EINVAL) } else { Ok::<usize, Errno>(0) }),
    {
        if arg == 0 {
            return Err(Errno::EINVAL);
        }
        Ok(0)
    }

    /// The node's mode: a block device readable and writable by owner and group.
    pub fn mode(&self) -> (r: u32)
        ensures
            r == S_IFBLK | 0o660,
    {
        S_IFBLK | 0o660
    }

    /// Its `stat` record.
    pub fn fstat(&self) -> (r: FileStat)
        ensures
            r == (FileStat { st_ino: self.ino as u64, st_mode: S_IFBLK | 0o660, st_nlink: 1,
                st_rdev: loop_rdev(self.minor), ..FileStat::zeroed_spec() }),
    {
        let mut kstat = FileStat::zeroed();
        kstat.st_ino = self.ino as u64;
        kstat.st_size = 0;
        kstat.st_mode = S_IFBLK | 0o660;
        kstat.st_nlink = 1;
        kstat.st_rdev = self.rdev();
        kstat
    }
}

/// The loop request an ioctl number names, or `ENOTTY`.
pub fn loop_request(request: usize) -> (r: SysResult<LoopRequest>)
    ensures
        r == (if request == LOOP_SET_FD { Ok::<LoopRequest, Errno>(LoopRequest::SetFd) }
            else if request == LOOP_CLR_FD { Ok::<LoopRequest, Errno>(LoopRequest::ClrFd) }
            else if request == LOOP_SET_STATUS { Ok::<LoopRequest, Errno>(LoopRequest::SetStatus) }
            else if request == LOOP_GET_STATUS { Ok::<LoopRequest, Errno>(LoopRequest::GetStatus) }
            else if request == LOOP_BLKGETSIZE64 { Ok::<LoopRequest, Errno>(LoopRequest::GetSize64) }
            else { Err::<LoopRequest, Errno>(Errno::ENOTTY) }),
{
    if request == LOOP_SET_FD {
        Ok(LoopRequest::SetFd)
    } else if request == LOOP_CLR_FD {
        Ok(LoopRequest::ClrFd)
    } else if request == LOOP_SET_STATUS {
        Ok(LoopRequest::SetStatus)
    } else if request == LOOP_GET_STATUS {
        Ok(LoopRequest::GetStatus)
    } else if request == LOOP_BLKGETSIZE64 {
        Ok(LoopRequest::GetSize64)
    } else {
        Err(Errno::ENOTTY)
    }
}

/// Binding a backing file needs a file with an inode that is not itself a loop device.
pub fn check_backing_file(has_inode: bool, is_loop: bool) -> (r: SysResult<()>)
    ensures
        r == (if !has_inode || is_loop { Err::<(), Errno>(Errno::EINVAL) } else { Ok::<(), Errno>(()) }),
{
    if !has_inode || is_loop {
        return Err(Errno::EINVAL);
    }
    Ok(())
}

/// What a loop-device request leaves for the caller to do with user memory.
pub enum LoopIoctlReply {
    /// Done; the request returns this value.
    Done(usize),
    /// Copy this status record to the user's address, then return 0.
    CopyOutInfo(LoopInfo),
    /// Read a status record from the user's address (and ignore it), then return 0.
    ReadInfo,
    /// Copy the size of this backing inode to the user's address, then return 0.
    CopyOutSize(u32),
}

impl LoopInode {
    /// Carries out a loop-device request. For `LOOP_SET_FD`, `backing` is the inode of the
    /// file descriptor given and whether it is a loop device itself (`None` for a file with
    /// no inode).
    pub fn ioctl(&mut self, request: usize, arg: usize, backing: Option<(u32, bool)>) -> (r: SysResult<LoopIoctlReply>)
        ensures
            request != LOOP_SET_FD && request != LOOP_CLR_FD && request != LOOP_SET_STATUS && request != LOOP_GET_STATUS
                && request != LOOP_BLKGETSIZE64 ==> (r matches Err(e) && e == Errno::ENOTTY && *final(self) == *old(self)),
            request == LOOP_SET_FD ==> match backing {
                None => r matches Err(e) && e == Errno::EINVAL && *final(self) == *old(self),
                Some((t, true)) => r matches Err(e) && e == Errno::EINVAL && *final(self) == *old(self),
                Some((t, false)) => if old(self).target is Some {
                    r matches Err(e) && e == Errno::EBUSY && *final(self) == *old(self)
                } else {
                    r matches Ok(LoopIoctlReply::Done(0)) && *final(self) == (LoopInode { target: Some(t), ..*old(self) })
                },
            },
            request == LOOP_CLR_FD ==> (r matches Ok(LoopIoctlReply::Done(0)) && *final(self) == (LoopInode { target: None, ..*old(self) })),
            request == LOOP_SET_STATUS ==> *final(self) == *old(self)
                && (if arg == 0 { r matches Err(e) && e == Errno::EINVAL } else { r matches Ok(LoopIoctlReply::ReadInfo) }),
            request == LOOP_GET_STATUS ==> *final(self) == *old(self) && (if arg == 0 {
                r matches Err(e) && e == Errno::EINVAL
            } else if old(self).target is None {
                r matches Err(e) && e == Errno::ENXIO
            } else {
                r matches Ok(LoopIoctlReply::CopyOutInfo(i)) && i.lo_number == old(self).minor as i32
                    && i.lo_inode == old(self).target->0 as usize && zero_info(LoopInfo { lo_number: 0, lo_inode: 0, ..i })
            }),
            request == LOOP_BLKGETSIZE64 ==> *final(self) == *old(self) && match old(self).target {
                Some(t) => r matches Ok(LoopIoctlReply::CopyOutSize(x)) && x == t,
                None => r matches Err(e) && e == Errno::ENXIO,
            },
    {
        match loop_request(request)? {
            LoopRequest::SetFd => {
                let (target, is_loop) = match backing {
                    Some(b) => b,
                    None => {
                        return Err(Errno::EINVAL);
                    },
                };
                check_backing_file(true, is_loop)?;
                self.bind_target_inode(target)?;
                Ok(LoopIoctlReply::Done(0))
            },
            LoopRequest::ClrFd => {
                self.clear_target_inode();
                Ok(LoopIoctlReply::Done(0))
            },
            LoopRequest::SetStatus => {
                self.set_status_check(arg)?;
                Ok(LoopIoctlReply::ReadInfo)
            },
            LoopRequest::GetStatus => {
                let info = self.get_status(arg)?;
                Ok(LoopIoctlReply::CopyOutInfo(info))
            },
            LoopRequest::GetSize64 => {
                let target = self.target_inode()?;
                Ok(LoopIoctlReply::CopyOutSize(target))
            },
        }
    }
}

} // verus!
