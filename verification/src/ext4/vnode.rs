//! An open ext4 inode: its in-memory record, directory listing cache and state flags, and
//! the file and namespace operations on it.
use vstd::prelude::*;
use crate::errno::{Errno, SysResult};
use crate::uapi::FileStat;
use crate::vfs::DirResult;
use super::ctx::Context;
use super::page_cache::{InodePageCache, INODE_PAGE_CACHE_CAPACITY};
use super::defs::{Ext4Inode, INODE_BLOCK_ARRAY_OFF, INODE_BLOCK_ARRAY_SIZE};
use super::dirops::{listing, result_is, find_name, read_dir_results_from_disk};
use super::data_map::{MODE_TYPE_MASK, MODE_DIR, mode_type, dir_readable_error, ensure_dir_readable, check_result};

verus! {

pub const MODE_PERM_MASK: u32 = 0o7777;
pub const MODE_SUID: u32 = 0o4000;
pub const MODE_SGID: u32 = 0o2000;
pub const MODE_XGRP: u32 = 0o010;

/// An inode of a mounted ext4 file system, as the file layer holds it.
pub struct Inode {
    /// Which mounted file system the inode belongs to.
    pub fsno: u32,
    pub inode: Ext4Inode,
    pub dents_cache: Option<Vec<DirResult>>,
    pub metadata_dirty: bool,
    pub deleted: bool,
    /// The file's pages read or written through the cache.
    pub page_cache: InodePageCache,
}

/// The listing results `v` describe the entries `l`.
pub open spec fn results_are(v: Seq<DirResult>, l: Seq<(u32, Seq<u8>, u8)>) -> bool {
    &&& v.len() == l.len()
    &&& forall|k: int| 0 <= k < l.len() ==> #[trigger] result_is(v[k], l[k])
}

/// A copy of a listing result.
pub fn copy_dir_result(d: &DirResult) -> (r: DirResult)
    ensures
        r.ino == d.ino,
        r.name@ == d.name@,
        r.file_type == d.file_type,
        r.len == d.len,
{
    DirResult { name: vstd::slice::slice_to_vec(d.name.as_slice()), ino: d.ino, file_type: d.file_type, len: d.len }
}

/// A copy of a list of listing results.
pub fn copy_dir_results(v: &Vec<DirResult>) -> (r: Vec<DirResult>)
    ensures
        r@.len() == v@.len(),
        forall|k: int| 0 <= k < v@.len() ==> (#[trigger] r@[k]).ino == v@[k].ino && r@[k].name@ == v@[k].name@
            && r@[k].file_type == v@[k].file_type && r@[k].len == v@[k].len,
{
    let mut out: Vec<DirResult> = Vec::new();
    let mut i: usize = 0;
    while i < v.len()
        invariant
            i <= v@.len(),
            out@.len() == i,
            forall|k: int| 0 <= k < i ==> (#[trigger] out@[k]).ino == v@[k].ino && out@[k].name@ == v@[k].name@
                && out@[k].file_type == v@[k].file_type && out@[k].len == v@[k].len,
        decreases v@.len() - i,
    {
        out.push(copy_dir_result(&v[i]));
        i += 1;
    }
    out
}

/// The listing cache, when filled, agrees with the directory on disk.
pub open spec fn cache_ok(c: Context, i: Inode) -> bool {
    i.dents_cache matches Some(v) ==> (listing(c, i.inode) matches Ok(l) && results_are(v@, l))
}

/// The mode after `chmod`: the type bits kept, the permission bits from `mode`.
pub open spec fn chmod_mode(cur: u16, mode: u32) -> u16 {
    (((cur as u32) & !MODE_PERM_MASK) | (mode & MODE_PERM_MASK)) as u16
}

/// The mode after a change of owner: set-user-ID dropped from a non-directory, and set-group-ID
/// too when the group may execute it.
pub open spec fn chown_mode(cur: u16) -> u16 {
    let m = cur as u32;
    if mode_type(cur) != MODE_DIR {
        if m & MODE_XGRP != 0 { (m & !(MODE_SUID | MODE_SGID)) as u16 } else { (m & !MODE_SUID) as u16 }
    } else {
        cur
    }
}

/// The inode of the first result named `needle`, if any.
pub fn find_in_results(entries: &Vec<DirResult>, needle: &[u8], Ghost(l): Ghost<Seq<(u32, Seq<u8>, u8)>>) -> (r: Option<u32>)
    requires
        results_are(entries@, l),
    ensures
        r == find_name(l, needle@),
{
    let mut i: usize = 0;
    proof {
        assert(l.skip(0) =~= l);
    }
    while i < entries.len()
        invariant
            i <= entries@.len(),
            results_are(entries@, l),
            find_name(l, needle@) == find_name(l.skip(i as int), needle@),
        decreases entries@.len() - i,
    {
        proof {
            assert(result_is(entries@[i as int], l[i as int]));
            assert(l.skip(i as int)[0] == l[i as int]);
            assert(l.skip(i as int).drop_first() =~= l.skip(i + 1));
        }
        if crate::bytes::bytes_eq(entries[i].name.as_slice(), needle) {
            proof {
                assert(find_name(l.skip(i as int), needle@) == Some(l[i as int].0));
            }
            return Some(entries[i].ino);
        }
        i += 1;
    }
    proof {
        assert(l.skip(i as int) =~= Seq::<(u32, Seq<u8>, u8)>::empty());
    }
    None
}

impl Inode {
    /// The open inode of record `inode` on file system `fsno`, with nothing cached or pending.
    pub fn new(fsno: u32, inode: Ext4Inode) -> (r: Inode)
        ensures
            r.fsno == fsno,
            r.inode == inode,
            r.dents_cache is None,
            !r.metadata_dirty,
            !r.deleted,
            r.page_cache.wf(),
            r.page_cache.pages@.len() == 0,
            r.page_cache.capacity == INODE_PAGE_CACHE_CAPACITY,
    {
        Inode { fsno, inode, dents_cache: None, metadata_dirty: false, deleted: false, page_cache: InodePageCache::new() }
    }

    /// Takes a newer copy of the record; times changed here and not yet written survive.
    pub fn refresh_cached_state(&mut self, inode: &Ext4Inode)
        ensures
            final(self).inode.raw@ == inode.raw@,
            final(self).inode == (Ext4Inode {
                raw: final(self).inode.raw,
                i_atime: if old(self).metadata_dirty { old(self).inode.i_atime } else { inode.i_atime },
                i_mtime: if old(self).metadata_dirty { old(self).inode.i_mtime } else { inode.i_mtime },
                i_ctime: if old(self).metadata_dirty { old(self).inode.i_ctime } else { inode.i_ctime },
                ..*inode
            }),
            final(self).fsno == old(self).fsno,
            final(self).metadata_dirty == old(self).metadata_dirty,
            final(self).deleted == old(self).deleted,
            final(self).dents_cache == old(self).dents_cache,
            final(self).page_cache == old(self).page_cache,
    {
        let mut refreshed = inode.duplicate();
        if self.metadata_dirty {
            refreshed.i_atime = self.inode.i_atime;
            refreshed.i_mtime = self.inode.i_mtime;
            refreshed.i_ctime = self.inode.i_ctime;
        }
        self.inode = refreshed;
    }

    /// Forgets the cached directory listing.
    pub fn invalidate_dir_cache(&mut self)
        ensures
            final(self).dents_cache is None,
            final(self).inode == old(self).inode,
            final(self).fsno == old(self).fsno,
            final(self).metadata_dirty == old(self).metadata_dirty,
            final(self).deleted == old(self).deleted,
            final(self).page_cache == old(self).page_cache,
    {
        self.dents_cache = None;
    }

    /// The directory's listing: the cached one, else read from disk and cached.
    pub fn dir_results(&mut self, context: &Context) -> (r: SysResult<Vec<DirResult>>)
        requires
            context.wf(),
            old(self).inode.raw@.len() >= INODE_BLOCK_ARRAY_OFF + INODE_BLOCK_ARRAY_SIZE,
            cache_ok(*context, *old(self)),
        ensures
            cache_ok(*context, *final(self)),
            final(self).inode == old(self).inode,
            final(self).fsno == old(self).fsno,
            final(self).metadata_dirty == old(self).metadata_dirty,
            final(self).deleted == old(self).deleted,
            match listing(*context, old(self).inode) {
                Ok(l) => r matches Ok(v) && results_are(v@, l),
                Err(e) => r == Err::<Vec<DirResult>, Errno>(e),
            },
    {
        match &self.dents_cache {
            Some(entries) => {
                let out = copy_dir_results(entries);
                proof {
                    let l = listing(*context, old(self).inode)->Ok_0;
                    assert forall|k: int| 0 <= k < l.len() implies #[trigger] result_is(out@[k], l[k]) by {
                        assert(result_is(entries@[k], l[k]));
                    }
                }
                return Ok(out);
            },
            None => {},
        }
        let entries = read_dir_results_from_disk(context, &self.inode)?;
        let cached = copy_dir_results(&entries);
        proof {
            let l = listing(*context, old(self).inode)->Ok_0;
            assert forall|k: int| 0 <= k < l.len() implies #[trigger] result_is(cached@[k], l[k]) by {
                assert(result_is(entries@[k], l[k]));
            }
        }
        self.dents_cache = Some(cached);
        Ok(entries)
    }

    /// Entry `index` of the directory's listing (from the cache, else read from disk and
    /// cached), or none past its end.
    pub fn dir_result_at(&mut self, context: &Context, index: usize) -> (r: SysResult<Option<DirResult>>)
        requires
            context.wf(),
            old(self).inode.raw@.len() >= INODE_BLOCK_ARRAY_OFF + INODE_BLOCK_ARRAY_SIZE,
            cache_ok(*context, *old(self)),
        ensures
            cache_ok(*context, *final(self)),
            final(self).inode == old(self).inode,
            final(self).fsno == old(self).fsno,
            final(self).metadata_dirty == old(self).metadata_dirty,
            final(self).deleted == old(self).deleted,
            match listing(*context, old(self).inode) {
                Ok(l) => if index < l.len() { r matches Ok(Some(d)) && result_is(d, l[index as int]) } else { r matches Ok(None) },
                Err(e) => r == Err::<Option<DirResult>, Errno>(e),
            },
            r matches Ok(Some(_)) ==> index < usize::MAX,
    {
        let entries = self.dir_results(context)?;
        if index < entries.len() {
            let d = copy_dir_result(&entries[index]);
            proof {
                let l = listing(*context, old(self).inode)->Ok_0;
                assert(result_is(entries@[index as int], l[index as int]));
            }
            Ok(Some(d))
        } else {
            Ok(None)
        }
    }

    /// The inode of the first live entry named `needle` (from the cached listing, else read
    /// from disk and cached); `ENOENT` when there is none.
    pub fn lookup_dir_entry(&mut self, context: &Context, needle: &[u8]) -> (r: SysResult<u32>)
        requires
            context.wf(),
            old(self).inode.raw@.len() >= INODE_BLOCK_ARRAY_OFF + INODE_BLOCK_ARRAY_SIZE,
            cache_ok(*context, *old(self)),
        ensures
            cache_ok(*context, *final(self)),
            final(self).inode == old(self).inode,
            final(self).fsno == old(self).fsno,
            final(self).metadata_dirty == old(self).metadata_dirty,
            final(self).deleted == old(self).deleted,
            match listing(*context, old(self).inode) {
                Ok(l) => match find_name(l, needle@) {
                    Some(i) => r == Ok::<u32, Errno>(i),
                    None => r == Err::<u32, Errno>(Errno::ENOENT),
                },
                Err(e) => r == Err::<u32, Errno>(e),
            },
    {
        let entries = self.dir_results(context)?;
        match find_in_results(&entries, needle, Ghost(listing(*context, old(self).inode)->Ok_0)) {
            Some(ino) => Ok(ino),
            None => Err(Errno::ENOENT),
        }
    }

    /// Records that the inode was deleted: takes its last record, drops pending metadata
    /// and the cached listing.
    pub fn mark_deleted(&mut self, inode: &Ext4Inode)
        ensures
            final(self).deleted,
            !final(self).metadata_dirty,
            final(self).dents_cache is None,
            final(self).inode.raw@ == inode.raw@,
            final(self).inode == (Ext4Inode { raw: final(self).inode.raw, ..*inode }),
            final(self).fsno == old(self).fsno,
            final(self).page_cache == old(self).page_cache,
    {
        self.metadata_dirty = false;
        self.refresh_cached_state(inode);
        self.invalidate_dir_cache();
        self.deleted = true;
    }

    /// Sets the permission bits from `mode` and the change time; the record is written later.
    pub fn chmod(&mut self, mode: u32, now: u32) -> (r: SysResult<()>)
        ensures
            r is Ok,
            final(self).inode == (Ext4Inode { i_mode: chmod_mode(old(self).inode.i_mode, mode), i_ctime: now, ..old(self).inode }),
            final(self).metadata_dirty,
            final(self).fsno == old(self).fsno,
            final(self).deleted == old(self).deleted,
            final(self).dents_cache == old(self).dents_cache,
    {
        let current = self.inode.i_mode as u32;
        self.inode.i_mode = ((current & !MODE_PERM_MASK) | (mode & MODE_PERM_MASK)) as u16;
        self.inode.set_ctime(now);
        self.metadata_dirty = true;
        Ok(())
    }

    /// Sets the owner and group given (their low 16 bits), drops set-ID bits as a change of
    /// owner does, and sets the change time; the record is written later.
    pub fn chown(&mut self, uid: Option<u32>, gid: Option<u32>, now: u32) -> (r: SysResult<()>)
        ensures
            r is Ok,
            final(self).inode == (Ext4Inode {
                i_uid: match uid { Some(u) => (u as int % 0x10000) as u16, None => old(self).inode.i_uid },
                i_gid: match gid { Some(g) => (g as int % 0x10000) as u16, None => old(self).inode.i_gid },
                i_mode: chown_mode(old(self).inode.i_mode),
                i_ctime: now,
                ..old(self).inode
            }),
            final(self).metadata_dirty,
            final(self).fsno == old(self).fsno,
            final(self).deleted == old(self).deleted,
            final(self).dents_cache == old(self).dents_cache,
    {
        match uid {
            Some(u) => {
                self.inode.i_uid = (u % 0x10000) as u16;
            },
            None => {},
        }
        match gid {
            Some(g) => {
                self.inode.i_gid = (g % 0x10000) as u16;
            },
            None => {},
        }
        let mut mode = self.inode.i_mode as u32;
        if self.inode.i_mode & MODE_TYPE_MASK != MODE_DIR {
            if mode & MODE_XGRP != 0 {
                mode = mode & !(MODE_SUID | MODE_SGID);
            } else {
                mode = mode & !MODE_SUID;
            }
            self.inode.i_mode = mode as u16;
        }
        self.inode.set_ctime(now);
        self.metadata_dirty = true;
        Ok(())
    }

    /// Sets the access time; the record is written later.
    pub fn update_atime(&mut self, now: u32) -> (r: SysResult<()>)
        ensures
            r is Ok,
            final(self).inode == (Ext4Inode { i_atime: now, ..old(self).inode }),
            final(self).metadata_dirty,
            final(self).fsno == old(self).fsno,
            final(self).deleted == old(self).deleted,
            final(self).dents_cache == old(self).dents_cache,
    {
        self.inode.set_atime(now);
        self.metadata_dirty = true;
        Ok(())
    }

    /// Sets the modification time; the record is written later.
    pub fn update_mtime(&mut self, now: u32) -> (r: SysResult<()>)
        ensures
            r is Ok,
            final(self).inode == (Ext4Inode { i_mtime: now, ..old(self).inode }),
            final(self).metadata_dirty,
            final(self).fsno == old(self).fsno,
            final(self).deleted == old(self).deleted,
            final(self).dents_cache == old(self).dents_cache,
    {
        self.inode.set_mtime(now);
        self.metadata_dirty = true;
        Ok(())
    }

    /// Sets the change time; the record is written later.
    pub fn update_ctime(&mut self, now: u32) -> (r: SysResult<()>)
        ensures
            r is Ok,
            final(self).inode == (Ext4Inode { i_ctime: now, ..old(self).inode }),
            final(self).metadata_dirty,
            final(self).fsno == old(self).fsno,
            final(self).deleted == old(self).deleted,
            final(self).dents_cache == old(self).dents_cache,
    {
        self.inode.set_ctime(now);
        self.metadata_dirty = true;
        Ok(())
    }

    /// Sets the modification and change times; the record is written later.
    pub fn update_mtime_ctime(&mut self, now: u32) -> (r: SysResult<()>)
        ensures
            r is Ok,
            final(self).inode == (Ext4Inode { i_mtime: now, i_ctime: now, ..old(self).inode }),
            final(self).metadata_dirty,
            final(self).fsno == old(self).fsno,
            final(self).deleted == old(self).deleted,
            final(self).dents_cache == old(self).dents_cache,
    {
        self.inode.set_mtime(now);
        self.inode.set_ctime(now);
        self.metadata_dirty = true;
        Ok(())
    }

    /// The inode number.
    pub fn get_ino(&self) -> (r: u32)
        ensures
            r == self.inode.ino,
    {
        self.inode.ino
    }

    /// The mode bits.
    pub fn mode(&self) -> (r: SysResult<u32>)
        ensures
            r == Ok::<u32, Errno>(self.inode.i_mode as u32),
    {
        Ok(self.inode.i_mode as u32)
    }

    /// The size in bytes.
    pub fn size(&self) -> (r: SysResult<u64>)
        ensures
            r == Ok::<u64, Errno>(self.inode.i_size),
    {
        Ok(self.inode.i_size)
    }

    /// The owner and group.
    pub fn owner(&self) -> (r: SysResult<(u32, u32)>)
        ensures
            r == Ok::<(u32, u32), Errno>((self.inode.i_uid as u32, self.inode.i_gid as u32)),
    {
        Ok((self.inode.i_uid as u32, self.inode.i_gid as u32))
    }

    /// The `stat` record: number, size, mode, links, owner, block size of the file system,
    /// 512-byte sectors and times; the rest zero.
    pub fn fstat(&self, block_size: u32) -> (r: SysResult<FileStat>)
        ensures
            r == Ok::<FileStat, Errno>(FileStat {
                st_ino: self.inode.ino as u64,
                st_size: (self.inode.i_size as int % 0x1_0000_0000_0000_0000) as i64,
                st_mode: self.inode.i_mode as u32,
                st_nlink: self.inode.i_links_count as u32,
                st_uid: self.inode.i_uid as u32,
                st_gid: self.inode.i_gid as u32,
                st_blksize: (block_size as int % 0x1_0000_0000) as i32,
                st_blocks: self.inode.i_blocks,
                st_atime_sec: self.inode.i_atime as i64,
                st_mtime_sec: self.inode.i_mtime as i64,
                st_ctime_sec: self.inode.i_ctime as i64,
                ..FileStat::zeroed_spec()
            }),
    {
        let mut st = FileStat::zeroed();
        st.st_ino = self.inode.ino as u64;
        st.st_size = self.inode.i_size as i64;
        st.st_mode = self.inode.i_mode as u32;
        st.st_nlink = self.inode.i_links_count as u32;
        st.st_uid = self.inode.i_uid as u32;
        st.st_gid = self.inode.i_gid as u32;
        st.st_blksize = block_size as i32;
        st.st_blocks = self.inode.i_blocks;
        st.st_atime_sec = self.inode.i_atime as i64;
        st.st_mtime_sec = self.inode.i_mtime as i64;
        st.st_ctime_sec = self.inode.i_ctime as i64;
        Ok(st)
    }

    /// Entry `index` of a directory's listing with the index of the next one.
    pub fn get_dent(&mut self, context: &Context, index: usize) -> (r: SysResult<Option<(DirResult, usize)>>)
        requires
            context.wf(),
            old(self).inode.raw@.len() >= INODE_BLOCK_ARRAY_OFF + INODE_BLOCK_ARRAY_SIZE,
            cache_ok(*context, *old(self)),
        ensures
            cache_ok(*context, *final(self)),
            final(self).inode == old(self).inode,
            match dir_readable_error(old(self).inode) {
                Some(e) => r == Err::<Option<(DirResult, usize)>, Errno>(e),
                None => match listing(*context, old(self).inode) {
                    Ok(l) => if index < l.len() {
                        r matches Ok(Some(p)) && result_is(p.0, l[index as int]) && p.1 == index + 1
                    } else {
                        r matches Ok(None)
                    },
                    Err(e) => r == Err::<Option<(DirResult, usize)>, Errno>(e),
                },
            },
    {
        ensure_dir_readable(&self.inode)?;
        match self.dir_result_at(context, index)? {
            Some(entry) => Ok(Some((entry, index + 1))),
            None => Ok(None),
        }
    }

    /// The inode that `name` names in this directory; a name empty or longer than 255 bytes
    /// names nothing (`ENOENT`).
    pub fn lookup(&mut self, context: &Context, name: &[u8]) -> (r: SysResult<u32>)
        requires
            context.wf(),
            old(self).inode.raw@.len() >= INODE_BLOCK_ARRAY_OFF + INODE_BLOCK_ARRAY_SIZE,
            cache_ok(*context, *old(self)),
        ensures
            cache_ok(*context, *final(self)),
            final(self).inode == old(self).inode,
            final(self).fsno == old(self).fsno,
            final(self).metadata_dirty == old(self).metadata_dirty,
            final(self).deleted == old(self).deleted,
            match dir_readable_error(old(self).inode) {
                Some(e) => r == Err::<u32, Errno>(e),
                None => if name@.len() == 0 || name@.len() > 255 {
                    r == Err::<u32, Errno>(Errno::ENOENT)
                } else {
                    match listing(*context, old(self).inode) {
                        Ok(l) => match find_name(l, name@) {
                            Some(i) => r == Ok::<u32, Errno>(i),
                            None => r == Err::<u32, Errno>(Errno::ENOENT),
                        },
                        Err(e) => r == Err::<u32, Errno>(e),
                    }
                },
            },
    {
        ensure_dir_readable(&self.inode)?;
        if name.len() == 0 || name.len() > 255 {
            return Err(Errno::ENOENT);
        }
        self.lookup_dir_entry(context, name)
    }
}


/// The open inodes of the mounted file systems, each found by file system and number.
pub struct InodeTable {
    pub inodes: Vec<Inode>,
}

impl InodeTable {
    /// A table with no open inodes.
    pub fn new() -> (r: InodeTable)
        ensures
            r.inodes@.len() == 0,
    {
        InodeTable { inodes: Vec::new() }
    }

    /// The position of the open inode `ino` of file system `fsno`: the first one, if any.
    pub fn cached_ext4_inode(&self, fsno: u32, ino: u32) -> (r: Option<usize>)
        ensures
            match r {
                Some(k) => k < self.inodes@.len() && self.inodes@[k as int].fsno == fsno && self.inodes@[k as int].inode.ino == ino
                    && forall|q: int| 0 <= q < k ==> !((#[trigger] self.inodes@[q]).fsno == fsno && self.inodes@[q].inode.ino == ino),
                None => forall|q: int| 0 <= q < self.inodes@.len() ==> !((#[trigger] self.inodes@[q]).fsno == fsno
                    && self.inodes@[q].inode.ino == ino),
            },
    {
        let mut i: usize = 0;
        while i < self.inodes.len()
            invariant
                i <= self.inodes@.len(),
                forall|q: int| 0 <= q < i ==> !((#[trigger] self.inodes@[q]).fsno == fsno && self.inodes@[q].inode.ino == ino),
            decreases self.inodes@.len() - i,
        {
            if self.inodes[i].fsno == fsno && self.inodes[i].inode.ino == ino {
                return Some(i);
            }
            i += 1;
        }
        None
    }

    /// Refreshes the open copy of `inode`, if there is one.
    pub fn sync_cached_inode(&mut self, fsno: u32, inode: &Ext4Inode)
        ensures
            final(self).inodes@.len() == old(self).inodes@.len(),
            no_open_copy(old(self).inodes@, fsno, inode.ino) ==> final(self).inodes@ == old(self).inodes@,
            forall|k: int| #[trigger] first_open_copy(old(self).inodes@, fsno, inode.ino, k) ==> {
                &&& only_changed_at(old(self).inodes@, final(self).inodes@, k)
                &&& refreshed_copy(old(self).inodes@[k], final(self).inodes@[k], *inode)
            },
    {
        match self.cached_ext4_inode(fsno, inode.ino) {
            Some(k) => {
                let mut cached = self.inodes.remove(k);
                cached.refresh_cached_state(inode);
                self.inodes.insert(k, cached);
                proof { lemma_first_open_copy_unique(old(self).inodes@, fsno, inode.ino, k as int); }
            },
            None => {
                assert(self.inodes@ =~= old(self).inodes@);
            },
        }
    }

    /// Marks the open copy of `inode` deleted, if there is one.
    pub fn mark_cached_inode_deleted(&mut self, fsno: u32, inode: &Ext4Inode)
        ensures
            final(self).inodes@.len() == old(self).inodes@.len(),
            no_open_copy(old(self).inodes@, fsno, inode.ino) ==> final(self).inodes@ == old(self).inodes@,
            forall|k: int| #[trigger] first_open_copy(old(self).inodes@, fsno, inode.ino, k) ==> {
                &&& only_changed_at(old(self).inodes@, final(self).inodes@, k)
                &&& final(self).inodes@[k].deleted
                &&& !final(self).inodes@[k].metadata_dirty
                &&& final(self).inodes@[k].dents_cache is None
                &&& final(self).inodes@[k].inode.raw@ == inode.raw@
                &&& final(self).inodes@[k].inode == (Ext4Inode { raw: final(self).inodes@[k].inode.raw, ..*inode })
                &&& final(self).inodes@[k].fsno == fsno
                &&& final(self).inodes@[k].page_cache == old(self).inodes@[k].page_cache
            },
    {
        match self.cached_ext4_inode(fsno, inode.ino) {
            Some(k) => {
                let mut cached = self.inodes.remove(k);
                cached.mark_deleted(inode);
                self.inodes.insert(k, cached);
                proof { lemma_first_open_copy_unique(old(self).inodes@, fsno, inode.ino, k as int); }
            },
            None => {
                assert(self.inodes@ =~= old(self).inodes@);
            },
        }
    }

    /// Forgets the cached listing of the open directory `ino`, if it is open.
    pub fn invalidate_cached_dir(&mut self, fsno: u32, ino: u32)
        ensures
            final(self).inodes@.len() == old(self).inodes@.len(),
            no_open_copy(old(self).inodes@, fsno, ino) ==> final(self).inodes@ == old(self).inodes@,
            forall|k: int| #[trigger] first_open_copy(old(self).inodes@, fsno, ino, k) ==> {
                &&& only_changed_at(old(self).inodes@, final(self).inodes@, k)
                &&& final(self).inodes@[k] == (Inode { dents_cache: None, ..old(self).inodes@[k] })
            },
    {
        match self.cached_ext4_inode(fsno, ino) {
            Some(k) => {
                let mut cached = self.inodes.remove(k);
                cached.invalidate_dir_cache();
                self.inodes.insert(k, cached);
                proof { lemma_first_open_copy_unique(old(self).inodes@, fsno, ino, k as int); }
            },
            None => {
                assert(self.inodes@ =~= old(self).inodes@);
            },
        }
    }

    /// Drops the open copy of `ino`, if there is one.
    pub fn evict_inode(&mut self, fsno: u32, ino: u32)
        ensures
            final(self).inodes@.len() <= old(self).inodes@.len(),
            no_open_copy(old(self).inodes@, fsno, ino) ==> final(self).inodes@ == old(self).inodes@,
            forall|k: int| #[trigger] first_open_copy(old(self).inodes@, fsno, ino, k)
                ==> final(self).inodes@ == old(self).inodes@.remove(k),
    {
        match self.cached_ext4_inode(fsno, ino) {
            Some(k) => {
                let _gone = self.inodes.remove(k);
                proof { lemma_first_open_copy_unique(old(self).inodes@, fsno, ino, k as int); }
            },
            None => {
                assert(self.inodes@ =~= old(self).inodes@);
            },
        }
    }
}

/// The open inode is `ino` of file system `fsno`.
pub open spec fn is_open_copy(i: Inode, fsno: u32, ino: u32) -> bool {
    i.fsno == fsno && i.inode.ino == ino
}

/// No open inode is `ino` of file system `fsno`.
pub open spec fn no_open_copy(s: Seq<Inode>, fsno: u32, ino: u32) -> bool {
    forall|q: int| 0 <= q < s.len() ==> !is_open_copy(#[trigger] s[q], fsno, ino)
}

/// Position `k` holds the first open copy of `ino` of file system `fsno`.
pub open spec fn first_open_copy(s: Seq<Inode>, fsno: u32, ino: u32, k: int) -> bool {
    &&& 0 <= k < s.len()
    &&& is_open_copy(s[k], fsno, ino)
    &&& forall|q: int| 0 <= q < k ==> !is_open_copy(#[trigger] s[q], fsno, ino)
}

/// Only position `k` differs.
pub open spec fn only_changed_at(a: Seq<Inode>, b: Seq<Inode>, k: int) -> bool {
    &&& a.len() == b.len()
    &&& forall|q: int| 0 <= q < a.len() && q != k ==> #[trigger] b[q] == a[q]
}

/// `new` is the open copy `old` refreshed from the record `inode`.
pub open spec fn refreshed_copy(old: Inode, new: Inode, inode: Ext4Inode) -> bool {
    &&& new.inode.raw@ == inode.raw@
    &&& new.inode == (Ext4Inode {
        raw: new.inode.raw,
        i_atime: if old.metadata_dirty { old.inode.i_atime } else { inode.i_atime },
        i_mtime: if old.metadata_dirty { old.inode.i_mtime } else { inode.i_mtime },
        i_ctime: if old.metadata_dirty { old.inode.i_ctime } else { inode.i_ctime },
        ..inode
    })
    &&& new.fsno == old.fsno
    &&& new.metadata_dirty == old.metadata_dirty
    &&& new.deleted == old.deleted
    &&& new.dents_cache == old.dents_cache
    &&& new.page_cache == old.page_cache
}

/// The first open copy is at one position only.
proof fn lemma_first_open_copy_unique(s: Seq<Inode>, fsno: u32, ino: u32, k: int)
    requires
        first_open_copy(s, fsno, ino, k),
    ensures
        forall|j: int| #[trigger] first_open_copy(s, fsno, ino, j) ==> j == k,
{
    assert forall|j: int| #[trigger] first_open_copy(s, fsno, ino, j) implies j == k by {
        if j < k {
            assert(!is_open_copy(s[j], fsno, ino));
        } else if k < j {
            assert(!is_open_copy(s[k], fsno, ino));
        }
    }
}
} // verus!
