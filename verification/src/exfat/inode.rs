//! A file of an exFAT volume: every change is refused, reads go to the volume.
use vstd::prelude::*;
use crate::errno::{Errno, SysResult};
use crate::exfat::superblock::{dent_outcome, lookup_outcome, lookup_numbers_new, dent_numbers_new, meta_of, mode_of, read_spec, size_of, stat_of, SuperBlockInner};
use crate::uapi::FileStat;
use crate::vfs::{DirResult, FileType};

verus! {

/// A file of an exFAT volume, by its number.
pub struct Inode {
    pub ino: u32,
}

impl Inode {
    /// The file numbered `ino`.
    pub fn new(ino: u32) -> (r: Self)
        ensures
            r.ino == ino,
    {
        Inode { ino }
    }

    /// Its number.
    pub fn get_ino(&self) -> (r: u32)
        ensures
            r == self.ino,
    {
        self.ino
    }

    /// Creating a file in the volume is refused.
    pub fn create(&self, _name: &[u8], _mode: u32) -> (r: SysResult<u32>)
        ensures
            r == Err::<u32, Errno>(Errno::EROFS),
    {
        Err(Errno::EROFS)
    }

    /// Linking a file into the volume is refused.
    pub fn link(&self, _name: &[u8], _target: u32) -> (r: SysResult<()>)
        ensures
            r == Err::<(), Errno>(Errno::EROFS),
    {
        Err(Errno::EROFS)
    }

    /// Removing a file of the volume is refused.
    pub fn unlink(&self, _name: &[u8]) -> (r: SysResult<()>)
        ensures
            r == Err::<(), Errno>(Errno::EROFS),
    {
        Err(Errno::EROFS)
    }

    /// Renaming a file of the volume is refused.
    pub fn rename(&self, _old_name: &[u8], _new_parent: u32, _new_name: &[u8]) -> (r: SysResult<()>)
        ensures
            r == Err::<(), Errno>(Errno::EROFS),
    {
        Err(Errno::EROFS)
    }

    /// Writing to a file of the volume is refused.
    pub fn writeat(&self, _buf: &[u8], _offset: usize) -> (r: SysResult<usize>)
        ensures
            r == Err::<usize, Errno>(Errno::EROFS),
    {
        Err(Errno::EROFS)
    }

    /// Changing the mode of a file of the volume is refused.
    pub fn chmod(&self, _mode: u32) -> (r: SysResult<()>)
        ensures
            r == Err::<(), Errno>(Errno::EROFS),
    {
        Err(Errno::EROFS)
    }

    /// Changing the size of a file of the volume is refused.
    pub fn truncate(&self, _new_size: u64) -> (r: SysResult<()>)
        ensures
            r == Err::<(), Errno>(Errno::EROFS),
    {
        Err(Errno::EROFS)
    }

    /// Every file of the volume belongs to user and group 0.
    pub fn owner(&self) -> (r: SysResult<(u32, u32)>)
        ensures
            r == Ok::<(u32, u32), Errno>((0, 0)),
    {
        Ok((0, 0))
    }

    /// Reads the file at byte `offset` into the front of `buf`.
    pub fn readat(&self, sb: &SuperBlockInner, buf: &mut Vec<u8>, offset: usize) -> (r: SysResult<usize>)
        requires
            sb.wf(),
        ensures
            final(buf)@.len() == old(buf)@.len(),
            match meta_of(sb.metas@, self.ino as int) {
                None => r == Err::<usize, Errno>(Errno::ENOENT),
                Some(m) => match read_spec(sb.dev@, sb.info, m, offset as int, old(buf)@.len() as int) {
                    Ok(bytes) => r == Ok::<usize, Errno>(bytes.len() as usize)
                        && final(buf)@.subrange(0, bytes.len() as int) == bytes,
                    Err(e) => r == Err::<usize, Errno>(e),
                },
            },
    {
        sb.read_inode(self.ino, buf, offset)
    }

    /// Directory entry `index` of the file and the index after it.
    pub fn get_dent(&self, sb: &mut SuperBlockInner, index: usize) -> (r: SysResult<Option<(DirResult, usize)>>)
        requires
            old(sb).wf(),
            old(sb).next_ino < u32::MAX || !dent_numbers_new(old(sb).dev@, old(sb).info, old(sb).metas@, self.ino, index),
        ensures
            final(sb).wf(),
            final(sb).dev@ == old(sb).dev@,
            final(sb).info == old(sb).info,
            dent_outcome(old(sb).dev@, old(sb).info, old(sb).metas@, self.ino, index, r, final(sb).metas@),
    {
        sb.get_dent(self.ino, index)
    }

    /// The number of the file named `name` in the directory.
    pub fn lookup(&self, sb: &mut SuperBlockInner, name: &[u8]) -> (r: SysResult<u32>)
        requires
            old(sb).wf(),
            old(sb).next_ino < u32::MAX || !lookup_numbers_new(old(sb).dev@, old(sb).info, old(sb).metas@, self.ino, name@),
        ensures
            final(sb).wf(),
            final(sb).dev@ == old(sb).dev@,
            final(sb).info == old(sb).info,
            lookup_outcome(old(sb).dev@, old(sb).info, old(sb).metas@, self.ino, name@, r, final(sb).metas@),
    {
        sb.lookup(self.ino, name)
    }

    /// The size of the file.
    pub fn size(&self, sb: &SuperBlockInner) -> (r: SysResult<u64>)
        requires
            sb.wf(),
        ensures
            match meta_of(sb.metas@, self.ino as int) {
                Some(m) => r == Ok::<u64, Errno>(size_of(sb.info, m)),
                None => r == Err::<u64, Errno>(Errno::ENOENT),
            },
    {
        sb.inode_size(self.ino)
    }

    /// The mode of the file.
    pub fn mode(&self, sb: &SuperBlockInner) -> (r: SysResult<u32>)
        requires
            sb.wf(),
        ensures
            match meta_of(sb.metas@, self.ino as int) {
                Some(m) => r == Ok::<u32, Errno>(mode_of(m)),
                None => r == Err::<u32, Errno>(Errno::ENOENT),
            },
    {
        sb.inode_mode(self.ino)
    }

    /// The type of the file.
    pub fn inode_type(&self, sb: &SuperBlockInner) -> (r: SysResult<FileType>)
        requires
            sb.wf(),
        ensures
            match meta_of(sb.metas@, self.ino as int) {
                Some(m) => r == Ok::<FileType, Errno>(if m.is_dir { FileType::Directory } else { FileType::Regular }),
                None => r == Err::<FileType, Errno>(Errno::ENOENT),
            },
    {
        sb.inode_type(self.ino)
    }

    /// The `stat` record of the file.
    pub fn fstat(&self, sb: &SuperBlockInner) -> (r: SysResult<FileStat>)
        requires
            sb.wf(),
        ensures
            match meta_of(sb.metas@, self.ino as int) {
                Some(m) => r == Ok::<FileStat, Errno>(stat_of(sb.info, self.ino, m)),
                None => r == Err::<FileStat, Errno>(Errno::ENOENT),
            },
    {
        sb.inode_stat(self.ino)
    }
}

} // verus!
