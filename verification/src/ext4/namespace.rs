//! Operations that change a directory's names or a file's length: create, link, unlink,
//! rmdir, rename, truncate, symlinks, and the data paths of an open inode.
use vstd::prelude::*;
use crate::errno::{Errno, SysResult};
use crate::bytes::{bytes_eq, le16};
use super::inode::{INODE_MODE_OFF, INODE_LINKS_COUNT_OFF};
use super::ctx::Context;
use super::defs::{Ext4Inode, Ext4DirEntryFileType, spec_file_type_code, has_bits, flags_contain, INODE_FLAG_EXTENTS, INODE_FLAG_INLINE_DATA,
    INODE_FLAG_INDEX, INODE_BLOCK_ARRAY_OFF, INODE_BLOCK_ARRAY_SIZE};
use super::data_map::{MODE_TYPE_MASK, MODE_DIR, MODE_REG, MODE_LNK, MODE_CHR, MODE_BLK, MODE_FIFO, MODE_SOCK, mode_type,
    dir_readable_error, dir_writable_error, ensure_dir_readable, ensure_dir_writable, dirent_file_type, dirent_type_of,
    set_device, set_fast_symlink, ensure_unlink_cleanup_supported, ensure_rmdir_cleanup_supported,
    check_rename_target_type, unlink_cleanup_error, rmdir_cleanup_error, rename_type_error, check_result, is_cacheable_file,
    cacheable};
use super::dirops::{listing, find_name, lookup_name_in_dir, is_dir_empty, only_dots, name_entered, entry_removed};
use super::vnode::{Inode, InodeTable, cache_ok};
use super::page_cache::cached;
use super::writeback::all_clean;
use super::tree::{root_bytes, snapshot_spec, rebuilt_root};
use super::extent_map::kept_spec;
use super::inode::inode_stored;
use super::file_io::{read_raw_at_locked, write_raw_at_locked, write_extent_data_locked, read_len, write_changed};

verus! {

/// The size of a page of the page cache.
pub const PAGE_SIZE: usize = 4096;

/// A name can stand in a directory: one to 255 bytes.
pub open spec fn name_ok(name: Seq<u8>) -> bool {
    0 < name.len() <= 255
}

/// The name is "." or "..".
pub open spec fn is_dot_name(name: Seq<u8>) -> bool {
    name == seq![0x2Eu8] || name == seq![0x2Eu8, 0x2Eu8]
}

/// Whether a name is "." or "..".
pub fn is_dot_or_dotdot(name: &[u8]) -> (r: bool)
    ensures
        r == is_dot_name(name@),
{
    let dot: Vec<u8> = vec![0x2Eu8];
    let dotdot: Vec<u8> = vec![0x2Eu8, 0x2Eu8];
    proof {
        assert(dot@ =~= seq![0x2Eu8]);
        assert(dotdot@ =~= seq![0x2Eu8, 0x2Eu8]);
    }
    bytes_eq(name, dot.as_slice()) || bytes_eq(name, dotdot.as_slice())
}

/// Releases an unlinked inode: its data (through its extents, or its size alone without
/// them), its record and its bit in the inode bitmap.
pub fn destroy_unlinked_inode(context: &mut Context, inode: &mut Ext4Inode, was_dir: bool) -> (r: SysResult<()>)
    requires
        old(context).wf(),
        old(inode).raw@.len() >= INODE_BLOCK_ARRAY_OFF + INODE_BLOCK_ARRAY_SIZE,
    ensures
        final(context).unchanged_but_dev(*old(context)),
        final(inode).ino == old(inode).ino,
        r is Ok ==> final(inode).i_size == 0 && final(inode).i_links_count == 0,
        !has_bits(old(inode).i_flags, INODE_FLAG_EXTENTS) ==> *final(inode) == (Ext4Inode { i_size: 0, i_blocks: 0,
            i_links_count: 0, ..*old(inode) }),
        !has_bits(old(inode).i_flags, INODE_FLAG_EXTENTS) && !super::balloc::record_zeroable(*old(context), old(inode).ino)
            ==> r is Err && final(context).dev@ == old(context).dev@,
{
    let ino = inode.ino;
    if flags_contain(inode.i_flags, INODE_FLAG_EXTENTS) {
        context.remove_extent_range(ino, inode, 0, 0xFFFF_FFFFu32)?;
        inode.i_size = 0;
    } else {
        inode.i_size = 0;
        inode.i_blocks = 0;
    }
    inode.i_links_count = 0;
    context.zero_inode_record(ino)?;
    context.free_inode_bit(ino, was_dir)
}

/// Removes the entry `name` that a rename replaces, for target inode `target_ino`: an empty
/// directory or a file's last link is destroyed (and its number given, to be evicted); a file
/// with more links only loses one.
pub fn remove_rename_target(context: &mut Context, table: &mut InodeTable, parent: &mut Ext4Inode, name: &[u8],
    source_mode_type: u16, target_ino: u32, now: u32) -> (r: SysResult<Option<u32>>)
    requires
        old(context).wf(),
        old(parent).raw@.len() >= INODE_BLOCK_ARRAY_OFF + INODE_BLOCK_ARRAY_SIZE,
    ensures
        final(context).unchanged_but_dev(*old(context)),
        final(parent).ino == old(parent).ino,
        final(parent).i_generation == old(parent).i_generation,
        final(parent).raw@.len() == old(parent).raw@.len(),
        r matches Ok(Some(t)) ==> t == target_ino,
        match super::inode::inode_read_result(*old(context), target_ino) {
            Err(e) => r == Err::<Option<u32>, Errno>(e) && *final(context) == *old(context),
            Ok(raw) => match rename_type_error(source_mode_type, (le16(raw, INODE_MODE_OFF as int) as u16) & MODE_TYPE_MASK) {
                Some(e) => r == Err::<Option<u32>, Errno>(e) && *final(context) == *old(context),
                None => le16(raw, INODE_LINKS_COUNT_OFF as int) == 0 ==> r == Err::<Option<u32>, Errno>(Errno::EIO)
                    && *final(context) == *old(context),
            },
        },
{
    let fsno = context.fsno;
    let mut target = context.read_inode(target_ino)?;
    let target_mode_type = target.i_mode & MODE_TYPE_MASK;
    check_rename_target_type(source_mode_type, target_mode_type)?;
    if target.i_links_count == 0 {
        return Err(Errno::EIO);
    }
    if target_mode_type == MODE_DIR {
        ensure_rmdir_cleanup_supported(&target)?;
        if !is_dir_empty(context, &target)? {
            return Err(Errno::ENOTEMPTY);
        }
        let pino = parent.ino;
        context.remove_dirent(pino, parent, name)?;
        parent.i_links_count = match parent.i_links_count.checked_sub(1) {
            Some(v) => v,
            None => return Err(Errno::EIO),
        };
        destroy_unlinked_inode(context, &mut target, true)?;
        table.mark_cached_inode_deleted(fsno, &target);
        return Ok(Some(target_ino));
    }
    if target.i_links_count > 1 {
        let old_links = target.i_links_count;
        let old_ctime = target.i_ctime;
        target.i_links_count = old_links - 1;
        target.set_ctime(now);
        context.write_inode(&mut target)?;
        table.sync_cached_inode(fsno, &target);
        let pino = parent.ino;
        match context.remove_dirent(pino, parent, name) {
            Ok(_) => {},
            Err(err) => {
                target.i_links_count = old_links;
                target.i_ctime = old_ctime;
                let _ = context.write_inode(&mut target);
                table.sync_cached_inode(fsno, &target);
                return Err(err);
            },
        }
        return Ok(None);
    }
    ensure_unlink_cleanup_supported(&target)?;
    let pino = parent.ino;
    context.remove_dirent(pino, parent, name)?;
    destroy_unlinked_inode(context, &mut target, false)?;
    table.mark_cached_inode_deleted(fsno, &target);
    Ok(Some(target_ino))
}

/// Clearing the extents flag leaves it clear.
proof fn lemma_and_not_clears(f: u32)
    ensures
        !has_bits(f & !INODE_FLAG_EXTENTS, INODE_FLAG_EXTENTS),
{
    assert((f & !0x80000u32) & 0x80000u32 == 0) by (bit_vector);
}

/// What looking `name` up in directory `dir` gives: the inode of its first entry, `ENOENT`,
/// or the error of listing the directory.
pub open spec fn name_target(c: Context, dir: Ext4Inode, name: Seq<u8>) -> Result<u32, Errno> {
    match listing(c, dir) {
        Err(e) => Err(e),
        Ok(l) => match find_name(l, name) {
            None => Err(Errno::ENOENT),
            Some(i) => Ok(i),
        },
    }
}

/// What checking a new name `name` in directory `dir` gives: the directory's read error, the
/// listing's error (but `ENOENT`, which is taken as no entry), `EEXIST` when an entry has the
/// name, or `Ok`.
pub open spec fn new_name_check(c: Context, dir: Ext4Inode, name: Seq<u8>) -> Result<(), Errno> {
    match dir_readable_error(dir) {
        Some(e) => Err(e),
        None => match listing(c, dir) {
            Err(e) => if e == Errno::ENOENT { Ok(()) } else { Err(e) },
            Ok(l) => if find_name(l, name) is Some { Err(Errno::EEXIST) } else { Ok(()) },
        },
    }
}

/// The block that logical block `lblk` of `inode` maps to, as looked up through its tree on
/// `c`, or the error.
pub open spec fn tail_block(c: Context, inode: Ext4Inode, lblk: u32) -> Result<Option<u64>, Errno> {
    let root = root_bytes(inode);
    match super::extent::extent_parse_error(root, true, c.block_size as int) {
        Some(e) => Err(e),
        None => super::lookup::lookup_spec(c, inode.ino, inode.i_generation, super::extent::header_of(root).eh_depth,
            super::extent::idxs_of(root), super::extent::leaves_of(root), lblk, true),
    }
}

/// Going from `sr` to `mid`, the block holding byte `size` of `inode` (as looked up on `sr`)
/// got every byte from `size` to the end of the block zeroed; an unmapped block is left as
/// it is.
pub open spec fn tail_zeroed(sr: Context, mid: Context, inode: Ext4Inode, size: u64) -> bool {
    let bs = sr.block_size as int;
    match tail_block(sr, inode, (size as int / bs) as u32) {
        Ok(Some(p)) => super::io::block_read(mid, p as int) matches Ok(b)
            && forall|k: int| size as int % bs <= k < bs ==> #[trigger] b[k] == 0u8,
        Ok(None) => mid == sr,
        Err(_) => false,
    }
}

/// Zeroes the bytes of the file from `size` to the end of the block holding byte `size`, when
/// that block is mapped; `size` is not on a block boundary.
fn zero_tail(context: &mut Context, inode: &Ext4Inode, size: u64) -> (r: SysResult<()>)
    requires
        old(context).wf(),
        inode.raw@.len() >= INODE_BLOCK_ARRAY_OFF + INODE_BLOCK_ARRAY_SIZE,
        size as int % (old(context).block_size as int) != 0,
    ensures
        final(context).unchanged_but_dev(*old(context)),
        r is Ok ==> tail_zeroed(*old(context), *final(context), *inode, size),
{
    let bs = context.block_size as u64;
    let tail_off = (size % bs) as usize;
    let kept_u64 = size / bs;
    if kept_u64 > 0xFFFF_FFFFu64 {
        return Err(Errno::EFBIG);
    }
    let kept_lblk = kept_u64 as u32;
    let ghost sr0 = *context;
    match super::file_io::lookup_inode_lblk(context, inode, kept_lblk)? {
        Some(pblk) => {
            let mut data = context.read_fs_block(pblk)?;
            let n = data.len();
            crate::bytes::fill_zero(&mut data, tail_off, n);
            context.write_fs_block(pblk, data.as_slice())?;
            proof {
                super::io::lemma_div_self(sr0.block_size as int);
                super::group_desc::lemma_block_read_after_store(sr0, *context, pblk as int, data@);
            }
        },
        None => {},
    }
    Ok(())
}

/// From `pre` to `post`, directory `dir_ino` (of generation `generation` and size `size`)
/// took `new_name` for inode `src` (of some type), then lost its first entry named
/// `old_name`, and then its record was stored.
#[verifier::opaque]
pub open spec fn name_moved(pre: Context, post: Context, dir_ino: u32, generation: u32, size: u64, old_name: Seq<u8>,
    new_name: Seq<u8>, src: u32) -> bool {
    exists|before: Ext4Inode, s1: Context, d1: Ext4Inode, ft: u8, s2: Context, pblk: u64, rec: Seq<u8>|
        #![trigger name_entered(pre, s1, before, d1, dir_ino, new_name, src, ft),
            entry_removed(s1, s2, dir_ino, generation, pblk, old_name), inode_stored(s2, post, dir_ino, rec)]
        before.ino == dir_ino && before.i_generation == generation && before.i_size == size
        && name_entered(pre, s1, before, d1, dir_ino, new_name, src, ft)
        && entry_removed(s1, s2, dir_ino, generation, pblk, old_name)
        && inode_stored(s2, post, dir_ino, rec)
}

/// From `pre` to `post`, a rename inside directory `dir_ino` moved `old_name` of `src` to
/// `new_name` (`name_moved`), and then the record of `src` was stored.
#[verifier::opaque]
pub open spec fn renamed_in_dir(pre: Context, post: Context, dir_ino: u32, generation: u32, size: u64, old_name: Seq<u8>,
    new_name: Seq<u8>, src: u32) -> bool {
    exists|mid: Context, rec: Seq<u8>| #![trigger name_moved(pre, mid, dir_ino, generation, size, old_name, new_name, src),
        inode_stored(mid, post, src, rec)]
        name_moved(pre, mid, dir_ino, generation, size, old_name, new_name, src) && inode_stored(mid, post, src, rec)
}

proof fn lemma_name_moved(pre: Context, post: Context, dir_ino: u32, generation: u32, size: u64, old_name: Seq<u8>,
    new_name: Seq<u8>, src: u32, before: Ext4Inode, s1: Context, d1: Ext4Inode, ft: u8, s2: Context, pblk: u64, rec: Seq<u8>)
    requires
        before.ino == dir_ino && before.i_generation == generation && before.i_size == size,
        name_entered(pre, s1, before, d1, dir_ino, new_name, src, ft),
        entry_removed(s1, s2, dir_ino, generation, pblk, old_name),
        inode_stored(s2, post, dir_ino, rec),
    ensures
        name_moved(pre, post, dir_ino, generation, size, old_name, new_name, src),
{
    reveal(name_moved);
}

proof fn lemma_renamed_in_dir(pre: Context, mid: Context, post: Context, dir_ino: u32, generation: u32, size: u64,
    old_name: Seq<u8>, new_name: Seq<u8>, src: u32, rec: Seq<u8>)
    requires
        name_moved(pre, mid, dir_ino, generation, size, old_name, new_name, src),
        inode_stored(mid, post, src, rec),
    ensures
        renamed_in_dir(pre, post, dir_ino, generation, size, old_name, new_name, src),
{
    reveal(renamed_in_dir);
}

/// From `pre` to `post`, directory `new_dir` (of generation `new_gen` and size `new_size`)
/// took `new_name` for `src` (of some type), directory `old_dir` (of generation `old_gen`)
/// lost its first entry named `old_name`, and then the records of the old directory, the new
/// directory and `src` were stored.
#[verifier::opaque]
pub open spec fn renamed_across(pre: Context, post: Context, new_dir: u32, new_gen: u32, new_size: u64, old_dir: u32,
    old_gen: u32, old_name: Seq<u8>, new_name: Seq<u8>, src: u32) -> bool {
    exists|before: Ext4Inode, s1: Context, d1: Ext4Inode, ft: u8, s2: Context, pblk: u64, s3: Context, r1: Seq<u8>,
        s4: Context, r2: Seq<u8>, r3: Seq<u8>|
        #![trigger name_entered(pre, s1, before, d1, new_dir, new_name, src, ft),
            entry_removed(s1, s2, old_dir, old_gen, pblk, old_name), inode_stored(s2, s3, old_dir, r1),
            inode_stored(s3, s4, new_dir, r2), inode_stored(s4, post, src, r3)]
        before.ino == new_dir && before.i_generation == new_gen && before.i_size == new_size
        && name_entered(pre, s1, before, d1, new_dir, new_name, src, ft)
        && entry_removed(s1, s2, old_dir, old_gen, pblk, old_name)
        && inode_stored(s2, s3, old_dir, r1) && inode_stored(s3, s4, new_dir, r2) && inode_stored(s4, post, src, r3)
}

proof fn lemma_renamed_across(pre: Context, post: Context, new_dir: u32, new_gen: u32, new_size: u64, old_dir: u32,
    old_gen: u32, old_name: Seq<u8>, new_name: Seq<u8>, src: u32, before: Ext4Inode, s1: Context, d1: Ext4Inode, ft: u8,
    s2: Context, pblk: u64, s3: Context, r1: Seq<u8>, s4: Context, r2: Seq<u8>, r3: Seq<u8>)
    requires
        before.ino == new_dir && before.i_generation == new_gen && before.i_size == new_size,
        name_entered(pre, s1, before, d1, new_dir, new_name, src, ft),
        entry_removed(s1, s2, old_dir, old_gen, pblk, old_name),
        inode_stored(s2, s3, old_dir, r1),
        inode_stored(s3, s4, new_dir, r2),
        inode_stored(s4, post, src, r3),
    ensures
        renamed_across(pre, post, new_dir, new_gen, new_size, old_dir, old_gen, old_name, new_name, src),
{
    reveal(renamed_across);
}

/// Enters `new_name` for `src` in the directory `dir_inode` (number `pino`), removes its
/// first entry named `old_name`, and stores its record.
fn move_name_within(context: &mut Context, pino: u32, dir_inode: &mut Ext4Inode, old_name: &[u8], new_name: &[u8],
    src: u32, file_type: Ext4DirEntryFileType) -> (r: SysResult<()>)
    requires
        old(context).wf(),
        old(dir_inode).raw@.len() >= INODE_BLOCK_ARRAY_OFF + INODE_BLOCK_ARRAY_SIZE,
        pino == old(dir_inode).ino,
    ensures
        final(context).unchanged_but_dev(*old(context)),
        final(dir_inode).ino == old(dir_inode).ino,
        r is Ok ==> name_moved(*old(context), *final(context), old(dir_inode).ino, old(dir_inode).i_generation,
            old(dir_inode).i_size, old_name@, new_name@, src),
{
    let ghost s0 = *context;
    let ghost before = *dir_inode;
    context.insert_dirent(pino, dir_inode, new_name, src, file_type)?;
    let ghost s1 = *context;
    let ghost d1 = *dir_inode;
    let p = context.remove_dirent(pino, dir_inode, old_name)?;
    let ghost s2 = *context;
    let ghost pblk = choose|pblk: u64| #![trigger super::dirops::dir_block_names(s1, pino, d1.i_generation, pblk, old_name@,
        p.0, p.1)] super::dirops::dir_block_names(s1, pino, d1.i_generation, pblk, old_name@, p.0, p.1)
        && entry_removed(s1, s2, pino, d1.i_generation, pblk, old_name@);
    assert(entry_removed(s1, s2, pino, d1.i_generation, pblk, old_name@));
    context.write_inode(dir_inode)?;
    proof {
        lemma_name_moved(s0, *context, pino, before.i_generation, before.i_size, old_name@, new_name@, src, before, s1, d1,
            spec_file_type_code(file_type), s2, pblk, dir_inode.raw@);
    }
    Ok(())
}

impl Inode {
    /// Removes the entry `name` (not a directory) from this directory: the target loses a
    /// link, and with its last one its storage is released and its open copy dropped.
    pub fn unlink(&mut self, context: &mut Context, table: &mut InodeTable, name: &[u8]) -> (r: SysResult<()>)
        requires
            old(context).wf(),
            old(self).inode.raw@.len() >= INODE_BLOCK_ARRAY_OFF + INODE_BLOCK_ARRAY_SIZE,
        ensures
            final(context).unchanged_but_dev(*old(context)),
            final(self).inode.ino == old(self).inode.ino,
            final(self).inode.raw@.len() == old(self).inode.raw@.len(),
            !name_ok(name@) ==> r == Err::<(), Errno>(Errno::EINVAL) && final(context).dev@ == old(context).dev@,
            name_ok(name@) && is_dot_name(name@) ==> r == Err::<(), Errno>(Errno::EINVAL) && final(context).dev@ == old(context).dev@,
            name_ok(name@) && !is_dot_name(name@) && dir_writable_error(old(self).inode) is Some
                ==> r == Err::<(), Errno>(dir_writable_error(old(self).inode)->0) && final(context).dev@ == old(context).dev@,
            r is Ok ==> (listing(*old(context), old(self).inode) matches Ok(l) && find_name(l, name@) is Some)
                && final(self).dents_cache is None,
            name_ok(name@) && !is_dot_name(name@) && dir_writable_error(old(self).inode) is None ==>
                match name_target(*old(context), old(self).inode, name@) {
                    Err(e) => r == Err::<(), Errno>(e) && *final(context) == *old(context),
                    Ok(child) => match super::inode::inode_read_result(*old(context), child) {
                        Err(e) => r == Err::<(), Errno>(e) && *final(context) == *old(context),
                        Ok(raw) => {
                            &&& (le16(raw, INODE_MODE_OFF as int) as u16) & MODE_TYPE_MASK == MODE_DIR
                                ==> r == Err::<(), Errno>(Errno::EISDIR) && *final(context) == *old(context)
                            &&& (le16(raw, INODE_MODE_OFF as int) as u16) & MODE_TYPE_MASK != MODE_DIR
                                && le16(raw, INODE_LINKS_COUNT_OFF as int) == 0
                                ==> r == Err::<(), Errno>(Errno::EIO) && *final(context) == *old(context)
                            &&& r is Ok && le16(raw, INODE_LINKS_COUNT_OFF as int) > 1 ==>
                                exists|mid: Context, rec: Seq<u8>, pblk: u64| #![trigger inode_stored(*old(context), mid, child, rec),
                                    entry_removed(mid, *final(context), old(self).inode.ino, old(self).inode.i_generation, pblk, name@)]
                                    inode_stored(*old(context), mid, child, rec)
                                    && mid.unchanged_but_dev(*old(context))
                                    && entry_removed(mid, *final(context), old(self).inode.ino, old(self).inode.i_generation, pblk, name@)
                        },
                    },
                },
    {
        if name.len() == 0 || name.len() > 255 {
            return Err(Errno::EINVAL);
        }
        if is_dot_or_dotdot(name) {
            return Err(Errno::EINVAL);
        }
        ensure_dir_writable(&self.inode)?;
        let fsno = context.fsno;
        let child_ino = lookup_name_in_dir(context, &self.inode, name)?;
        let mut child = context.read_inode(child_ino)?;
        if child.i_mode & MODE_TYPE_MASK == MODE_DIR {
            return Err(Errno::EISDIR);
        }
        if child.i_links_count == 0 {
            return Err(Errno::EIO);
        }
        let pino = self.inode.ino;
        if child.i_links_count > 1 {
            let old_links = child.i_links_count;
            child.i_links_count = old_links - 1;
            context.write_inode(&mut child)?;
            let ghost mid = *context;
            let ghost rec = child.raw@;
            table.sync_cached_inode(fsno, &child);
            match context.remove_dirent(pino, &mut self.inode, name) {
                Ok(p) => {
                    proof {
                        let pblk = choose|pblk: u64| #![trigger super::dirops::dir_block_names(mid, pino, self.inode.i_generation,
                            pblk, name@, p.0, p.1)] super::dirops::dir_block_names(mid, pino, self.inode.i_generation, pblk,
                            name@, p.0, p.1) && entry_removed(mid, *context, pino, self.inode.i_generation, pblk, name@);
                        assert(entry_removed(mid, *context, pino, self.inode.i_generation, pblk, name@));
                    }
                },
                Err(err) => {
                    child.i_links_count = old_links;
                    let _ = context.write_inode(&mut child);
                    table.sync_cached_inode(fsno, &child);
                    return Err(err);
                },
            }
            self.invalidate_dir_cache();
            return Ok(());
        }
        ensure_unlink_cleanup_supported(&child)?;
        context.remove_dirent(pino, &mut self.inode, name)?;
        destroy_unlinked_inode(context, &mut child, false)?;
        table.mark_cached_inode_deleted(fsno, &child);
        self.invalidate_dir_cache();
        table.evict_inode(fsno, child_ino);
        Ok(())
    }

    /// Removes the empty directory `name` from this directory, which loses a link; the
    /// directory's storage is released and its open copy dropped.
    pub fn rmdir(&mut self, context: &mut Context, table: &mut InodeTable, name: &[u8]) -> (r: SysResult<()>)
        requires
            old(context).wf(),
            old(self).inode.raw@.len() >= INODE_BLOCK_ARRAY_OFF + INODE_BLOCK_ARRAY_SIZE,
        ensures
            final(context).unchanged_but_dev(*old(context)),
            final(self).inode.ino == old(self).inode.ino,
            final(self).inode.raw@.len() == old(self).inode.raw@.len(),
            !name_ok(name@) ==> r == Err::<(), Errno>(Errno::EINVAL) && final(context).dev@ == old(context).dev@,
            name_ok(name@) && is_dot_name(name@) ==> r == Err::<(), Errno>(Errno::EINVAL) && final(context).dev@ == old(context).dev@,
            name_ok(name@) && !is_dot_name(name@) && dir_writable_error(old(self).inode) is Some
                ==> r == Err::<(), Errno>(dir_writable_error(old(self).inode)->0) && final(context).dev@ == old(context).dev@,
            r is Ok ==> (listing(*old(context), old(self).inode) matches Ok(l) && find_name(l, name@) is Some)
                && final(self).dents_cache is None
                && final(self).inode.i_links_count + 1 == old(self).inode.i_links_count,
            name_ok(name@) && !is_dot_name(name@) && dir_writable_error(old(self).inode) is None ==>
                match name_target(*old(context), old(self).inode, name@) {
                    Err(e) => r == Err::<(), Errno>(e) && *final(context) == *old(context),
                    Ok(child) => super::inode::inode_read_result(*old(context), child) matches Err(e)
                        ==> r == Err::<(), Errno>(e) && *final(context) == *old(context),
                },
    {
        if name.len() == 0 || name.len() > 255 {
            return Err(Errno::EINVAL);
        }
        if is_dot_or_dotdot(name) {
            return Err(Errno::EINVAL);
        }
        ensure_dir_writable(&self.inode)?;
        let fsno = context.fsno;
        let child_ino = lookup_name_in_dir(context, &self.inode, name)?;
        let mut child = context.read_inode(child_ino)?;
        ensure_rmdir_cleanup_supported(&child)?;
        if !is_dir_empty(context, &child)? {
            return Err(Errno::ENOTEMPTY);
        }
        let old_parent_links = self.inode.i_links_count;
        let pino = self.inode.ino;
        context.remove_dirent(pino, &mut self.inode, name)?;
        self.inode.i_links_count = match old_parent_links.checked_sub(1) {
            Some(v) => v,
            None => return Err(Errno::EIO),
        };
        context.write_inode(&mut self.inode)?;
        destroy_unlinked_inode(context, &mut child, true)?;
        table.mark_cached_inode_deleted(fsno, &child);
        self.invalidate_dir_cache();
        table.evict_inode(fsno, child_ino);
        Ok(())
    }

    /// Adds the name `name` in this directory for the (non-directory) inode `target` of the
    /// same file system, which gains a link; the times are set to `now`. Hashed-index
    /// directories are refused.
    #[verifier::rlimit(80)]
    #[verifier::spinoff_prover]
    pub fn link(&mut self, context: &mut Context, name: &[u8], target: &mut Inode, now: u32) -> (r: SysResult<()>)
        requires
            old(context).wf(),
            old(self).inode.raw@.len() >= INODE_BLOCK_ARRAY_OFF + INODE_BLOCK_ARRAY_SIZE,
            cache_ok(*old(context), *old(self)),
        ensures
            final(context).unchanged_but_dev(*old(context)),
            final(self).inode.ino == old(self).inode.ino,
            final(target).inode.ino == old(target).inode.ino,
            !name_ok(name@) ==> r == Err::<(), Errno>(Errno::EINVAL) && final(context).dev@ == old(context).dev@,
            name_ok(name@) && old(self).fsno != old(target).fsno ==> r == Err::<(), Errno>(Errno::EXDEV)
                && final(context).dev@ == old(context).dev@,
            name_ok(name@) && old(self).fsno == old(target).fsno && mode_type(old(target).inode.i_mode) == MODE_DIR
                ==> r == Err::<(), Errno>(Errno::EPERM) && final(context).dev@ == old(context).dev@,
            r is Ok ==> final(target).inode.i_links_count == old(target).inode.i_links_count + 1
                && final(target).inode.i_ctime == now && final(self).dents_cache is None
                && (listing(*old(context), old(self).inode) matches Ok(l) ==> find_name(l, name@) is None),
            r is Ok ==> exists|pre: Context, mid: Context, before: Ext4Inode|
                #![trigger name_entered(pre, mid, before, final(self).inode, old(self).inode.ino, name@, old(target).inode.ino,
                    spec_file_type_code(dirent_type_of(old(target).inode.i_mode)->Some_0))]
                name_entered(pre, mid, before, final(self).inode, old(self).inode.ino, name@, old(target).inode.ino,
                    spec_file_type_code(dirent_type_of(old(target).inode.i_mode)->Some_0))
                && pre.unchanged_but_dev(*old(context)) && before.ino == old(self).inode.ino
                && before.i_generation == old(self).inode.i_generation
                && inode_stored(mid, *final(context), old(target).inode.ino, final(target).inode.raw@),
    {
        if name.len() == 0 || name.len() > 255 {
            return Err(Errno::EINVAL);
        }
        if self.fsno != target.fsno {
            return Err(Errno::EXDEV);
        }
        if target.inode.i_mode & MODE_TYPE_MASK == MODE_DIR {
            return Err(Errno::EPERM);
        }
        let file_type = dirent_file_type(target.inode.i_mode)?;
        match self.lookup(context, name) {
            Ok(_) => return Err(Errno::EEXIST),
            Err(Errno::ENOENT) => {},
            Err(err) => return Err(err),
        }
        ensure_dir_readable(&self.inode)?;
        if flags_contain(self.inode.i_flags, INODE_FLAG_INDEX) {
            return Err(Errno::EOPNOTSUPP);
        }
        let old_links = target.inode.i_links_count;
        let old_ctime = target.inode.i_ctime;
        target.inode.i_links_count = match old_links.checked_add(1) {
            Some(v) => v,
            None => return Err(Errno::EIO),
        };
        target.inode.set_ctime(now);
        let child_ino = target.inode.ino;
        self.inode.set_mtime(now);
        self.inode.set_ctime(now);
        let pino = self.inode.ino;
        let ghost pre = *context;
        let ghost before = self.inode;
        match context.insert_dirent(pino, &mut self.inode, name, child_ino, file_type) {
            Ok(()) => {},
            Err(err) => {
                target.inode.i_links_count = old_links;
                target.inode.i_ctime = old_ctime;
                return Err(err);
            },
        }
        let ghost mid = *context;
        proof {
            assert(name_entered(pre, mid, before, self.inode, old(self).inode.ino, name@, old(target).inode.ino,
                spec_file_type_code(dirent_type_of(old(target).inode.i_mode)->Some_0)));
        }
        match context.write_inode(&mut target.inode) {
            Ok(()) => {},
            Err(err) => {
                target.inode.i_links_count = old_links;
                target.inode.i_ctime = old_ctime;
                return Err(err);
            },
        }
        self.invalidate_dir_cache();
        Ok(())
    }

    /// Checks that this directory can be read and holds no entry named `name`: `EEXIST` when
    /// it does, the listing's error when it cannot be listed.
    fn ensure_name_free(&mut self, context: &Context, name: &[u8]) -> (r: SysResult<()>)
        requires
            context.wf(),
            old(self).inode.raw@.len() >= INODE_BLOCK_ARRAY_OFF + INODE_BLOCK_ARRAY_SIZE,
            cache_ok(*context, *old(self)),
            name_ok(name@),
        ensures
            cache_ok(*context, *final(self)),
            final(self).inode == old(self).inode,
            final(self).fsno == old(self).fsno,
            final(self).metadata_dirty == old(self).metadata_dirty,
            final(self).deleted == old(self).deleted,
            r == new_name_check(*context, old(self).inode, name@),
    {
        match self.lookup(context, name) {
            Ok(_) => Err(Errno::EEXIST),
            Err(Errno::ENOENT) => Ok(()),
            Err(err) => Err(err),
        }
    }

    /// Creates `name` in this directory: a new inode of the type and permissions of `mode`,
    /// owned by `uid`/`gid`, with times `now`; a directory gets a first block with "." and ".."
    /// and raises this directory's link count; a device keeps `dev`. On a failure what was
    /// allocated is released.
    #[verifier::rlimit(100)]
    #[verifier::spinoff_prover]
    pub fn create_child(&mut self, context: &mut Context, name: &[u8], mode: u32, uid: u32, gid: u32, dev: u64, now: u32)
        -> (r: SysResult<Inode>)
        requires
            old(context).wf(),
            old(self).inode.raw@.len() >= INODE_BLOCK_ARRAY_OFF + INODE_BLOCK_ARRAY_SIZE,
            cache_ok(*old(context), *old(self)),
        ensures
            final(context).unchanged_but_dev(*old(context)),
            final(self).inode.ino == old(self).inode.ino,
            final(self).fsno == old(self).fsno,
            final(self).inode.raw@.len() == old(self).inode.raw@.len(),
            dirent_type_of((mode as int % 0x10000) as u16) is None ==> r == Err::<Inode, Errno>(Errno::EOPNOTSUPP)
                && final(context).dev@ == old(context).dev@,
            dirent_type_of((mode as int % 0x10000) as u16) is Some && !name_ok(name@) ==> r == Err::<Inode, Errno>(Errno::EINVAL)
                && final(context).dev@ == old(context).dev@,
            dirent_type_of((mode as int % 0x10000) as u16) is Some && name_ok(name@)
                && new_name_check(*old(context), old(self).inode, name@) is Err
                ==> r == Err::<Inode, Errno>(new_name_check(*old(context), old(self).inode, name@)->Err_0)
                && final(context).dev@ == old(context).dev@,
            r matches Ok(c) ==> c.fsno == old(self).fsno && c.inode.i_mode == (mode as int % 0x10000) as u16
                && c.inode.i_uid == (uid as int % 0x10000) as u16 && c.inode.i_gid == (gid as int % 0x10000) as u16
                && c.inode.i_atime == now && c.inode.i_mtime == now && c.inode.i_ctime == now
                && c.inode.i_links_count == (if mode_type((mode as int % 0x10000) as u16) == MODE_DIR { 2u16 } else { 1u16 })
                && c.inode.i_size == (if mode_type((mode as int % 0x10000) as u16) == MODE_DIR { old(context).block_size as u64 } else { 0u64 })
                && !c.deleted && !c.metadata_dirty && c.dents_cache is None
                && (listing(*old(context), old(self).inode) matches Ok(l) ==> find_name(l, name@) is None)
                && final(self).inode.i_links_count == old(self).inode.i_links_count
                    + (if mode_type((mode as int % 0x10000) as u16) == MODE_DIR { 1int } else { 0int }),
            r matches Ok(c) ==> c.inode.ino > 0 && exists|pre: Context, before: Ext4Inode|
                #![trigger name_entered(pre, *final(context), before, final(self).inode, old(self).inode.ino, name@,
                    c.inode.ino, spec_file_type_code(dirent_type_of((mode as int % 0x10000) as u16)->Some_0))]
                name_entered(pre, *final(context), before, final(self).inode, old(self).inode.ino, name@, c.inode.ino,
                    spec_file_type_code(dirent_type_of((mode as int % 0x10000) as u16)->Some_0))
                && pre.unchanged_but_dev(*old(context)) && before.ino == old(self).inode.ino
                && before.i_generation == old(self).inode.i_generation,
            r is Err ==> final(self).inode.i_links_count == old(self).inode.i_links_count,
    {
        let mode16 = (mode % 0x10000) as u16;
        let file_type = dirent_file_type(mode16)?;
        let is_dir = match file_type {
            Ext4DirEntryFileType::Directory => true,
            _ => false,
        };
        if name.len() == 0 || name.len() > 255 {
            return Err(Errno::EINVAL);
        }
        self.ensure_name_free(context, name)?;
        ensure_dir_writable(&self.inode)?;
        let child_ino = context.alloc_inode(is_dir)?;
        let old_parent_links = self.inode.i_links_count;
        let mut child_block: Option<u64> = None;
        let result = self.fill_new_child(context, name, child_ino, mode16, uid, gid, dev, now, file_type, &mut child_block);
        match result {
            Ok(child) => {
                self.invalidate_dir_cache();
                Ok(Inode::new(self.fsno, child))
            },
            Err(err) => {
                self.inode.i_links_count = old_parent_links;
                match child_block {
                    Some(pblk) => {
                        let _ = context.free_block(pblk);
                    },
                    None => {},
                }
                let _ = context.zero_inode_record(child_ino);
                let _ = context.free_inode_bit(child_ino, is_dir);
                Err(err)
            },
        }
    }

    /// Builds and writes the record of a new child and enters it in this directory (the part
    /// of `create_child` that is undone on a failure).
    #[verifier::rlimit(60)]
    fn fill_new_child(&mut self, context: &mut Context, name: &[u8], child_ino: u32, mode16: u16, uid: u32, gid: u32,
        dev: u64, now: u32, file_type: Ext4DirEntryFileType, child_block: &mut Option<u64>) -> (r: SysResult<Ext4Inode>)
        requires
            old(context).wf(),
            old(self).inode.raw@.len() >= INODE_BLOCK_ARRAY_OFF + INODE_BLOCK_ARRAY_SIZE,
            dirent_type_of(mode16) == Some(file_type),
        ensures
            final(context).unchanged_but_dev(*old(context)),
            final(self).inode.ino == old(self).inode.ino,
            final(self).fsno == old(self).fsno,
            final(self).inode.raw@.len() == old(self).inode.raw@.len(),
            r matches Ok(c) ==> c.i_mode == mode16
                && c.i_uid == (uid as int % 0x10000) as u16 && c.i_gid == (gid as int % 0x10000) as u16
                && c.i_atime == now && c.i_mtime == now && c.i_ctime == now
                && c.i_links_count == (if mode_type(mode16) == MODE_DIR { 2u16 } else { 1u16 })
                && c.i_size == (if mode_type(mode16) == MODE_DIR { old(context).block_size as u64 } else { 0u64 })
                && final(self).inode.i_links_count == old(self).inode.i_links_count
                    + (if mode_type(mode16) == MODE_DIR { 1int } else { 0int }),
            r matches Ok(c) ==> c.ino == child_ino && exists|pre: Context, before: Ext4Inode|
                #![trigger name_entered(pre, *final(context), before, final(self).inode, old(self).inode.ino, name@, child_ino,
                    spec_file_type_code(file_type))]
                name_entered(pre, *final(context), before, final(self).inode, old(self).inode.ino, name@, child_ino,
                    spec_file_type_code(file_type))
                && pre.unchanged_but_dev(*old(context)) && before.ino == old(self).inode.ino
                && before.i_generation == old(self).inode.i_generation,
    {
        let is_dir = match file_type {
            Ext4DirEntryFileType::Directory => true,
            _ => false,
        };
        let mut child = context.new_inode(child_ino, mode16, (uid % 0x10000) as u16, (gid % 0x10000) as u16,
            if is_dir { 2 } else { 1 })?;
        child.set_atime(now);
        child.set_mtime(now);
        child.set_ctime(now);
        match file_type {
            Ext4DirEntryFileType::Directory => {
                let pblk = context.alloc_block()?;
                *child_block = Some(pblk);
                context.zero_fs_block(pblk)?;
                context.insert_extent_1blk(child_ino, &mut child, 0, pblk)?;
                let generation = child.i_generation;
                let pino = self.inode.ino;
                context.init_dir_block(pblk, child_ino, generation, pino)?;
                child.i_size = context.block_size as u64;
                self.inode.i_links_count = match self.inode.i_links_count.checked_add(1) {
                    Some(v) => v,
                    None => return Err(Errno::EIO),
                };
            },
            Ext4DirEntryFileType::CharacterDevice | Ext4DirEntryFileType::BlockDevice => {
                set_device(&mut child, dev);
            },
            _ => {},
        }
        context.write_inode(&mut child)?;
        self.inode.set_mtime(now);
        self.inode.set_ctime(now);
        let pino = self.inode.ino;
        let ghost pre = *context;
        let ghost before = self.inode;
        context.insert_dirent(pino, &mut self.inode, name, child_ino, file_type)?;
        proof {
            assert(name_entered(pre, *context, before, self.inode, old(self).inode.ino, name@, child_ino,
                spec_file_type_code(file_type)));
        }
        Ok(child)
    }

    /// Creates a regular file, directory or symlink named `name`; other types are
    /// `EOPNOTSUPP`.
    pub fn create(&mut self, context: &mut Context, name: &[u8], mode: u32, uid: u32, gid: u32, now: u32) -> (r: SysResult<Inode>)
        requires
            old(context).wf(),
            old(self).inode.raw@.len() >= INODE_BLOCK_ARRAY_OFF + INODE_BLOCK_ARRAY_SIZE,
            cache_ok(*old(context), *old(self)),
        ensures
            final(context).unchanged_but_dev(*old(context)),
            !((mode & 0o170000u32) == 0o100000u32 || (mode & 0o170000u32) == 0o040000u32 || (mode & 0o170000u32) == 0o120000u32)
                ==> r == Err::<Inode, Errno>(Errno::EOPNOTSUPP) && final(context).dev@ == old(context).dev@,
            r matches Ok(c) ==> c.inode.i_mode == (mode as int % 0x10000) as u16,
    {
        let t = mode & 0o170000u32;
        if t == 0o100000u32 || t == 0o040000u32 || t == 0o120000u32 {
            proof {
                assert((mode as int % 0x10000) as u16 & 0xF000u16 == (mode & 0o170000u32) as u16) by (bit_vector);
            }
            self.create_child(context, name, mode, uid, gid, 0, now)
        } else {
            Err(Errno::EOPNOTSUPP)
        }
    }

    /// Creates a device, FIFO or socket named `name` (a device keeps `dev`); other types are
    /// `EOPNOTSUPP`.
    pub fn mknod(&mut self, context: &mut Context, name: &[u8], mode: u32, uid: u32, gid: u32, dev: u64, now: u32)
        -> (r: SysResult<Inode>)
        requires
            old(context).wf(),
            old(self).inode.raw@.len() >= INODE_BLOCK_ARRAY_OFF + INODE_BLOCK_ARRAY_SIZE,
            cache_ok(*old(context), *old(self)),
        ensures
            final(context).unchanged_but_dev(*old(context)),
            !((mode & 0o170000u32) == 0o020000u32 || (mode & 0o170000u32) == 0o060000u32 || (mode & 0o170000u32) == 0o010000u32
                || (mode & 0o170000u32) == 0o140000u32) ==> r == Err::<Inode, Errno>(Errno::EOPNOTSUPP)
                && final(context).dev@ == old(context).dev@,
            r matches Ok(c) ==> c.inode.i_mode == (mode as int % 0x10000) as u16,
    {
        let t = mode & 0o170000u32;
        proof {
            assert((mode as int % 0x10000) as u16 & 0xF000u16 == (mode & 0o170000u32) as u16) by (bit_vector);
        }
        if t == 0o020000u32 || t == 0o060000u32 {
            self.create_child(context, name, mode, uid, gid, dev, now)
        } else if t == 0o010000u32 || t == 0o140000u32 {
            self.create_child(context, name, mode, uid, gid, 0, now)
        } else {
            Err(Errno::EOPNOTSUPP)
        }
    }


    /// Renames `old_name` in this directory to `new_name` in `new_parent` (this directory
    /// itself when their numbers agree). A target of that name is replaced if its type agrees
    /// (an empty directory or the last link of a file is destroyed); a directory moved across
    /// gets its ".." re-pointed and the link counts move with it.
    #[verifier::rlimit(80)]
    #[verifier::spinoff_prover]
    pub fn rename(&mut self, context: &mut Context, table: &mut InodeTable, old_name: &[u8], new_parent: &mut Inode,
        new_name: &[u8], now: u32) -> (r: SysResult<()>)
        requires
            old(context).wf(),
            old(self).inode.raw@.len() >= INODE_BLOCK_ARRAY_OFF + INODE_BLOCK_ARRAY_SIZE,
            old(new_parent).inode.raw@.len() >= INODE_BLOCK_ARRAY_OFF + INODE_BLOCK_ARRAY_SIZE,
        ensures
            final(context).unchanged_but_dev(*old(context)),
            final(self).inode.ino == old(self).inode.ino,
            final(new_parent).inode.ino == old(new_parent).inode.ino,
            !name_ok(old_name@) || !name_ok(new_name@) ==> r == Err::<(), Errno>(Errno::EINVAL)
                && final(context).dev@ == old(context).dev@,
            name_ok(old_name@) && name_ok(new_name@) && (is_dot_name(old_name@) || is_dot_name(new_name@))
                ==> r == Err::<(), Errno>(Errno::EINVAL) && final(context).dev@ == old(context).dev@,
            name_ok(old_name@) && name_ok(new_name@) && !is_dot_name(old_name@) && !is_dot_name(new_name@)
                && old(self).fsno != old(new_parent).fsno ==> r == Err::<(), Errno>(Errno::EXDEV)
                && final(context).dev@ == old(context).dev@,
            r is Ok ==> (listing(*old(context), old(self).inode) matches Ok(l) && find_name(l, old_name@) is Some),
            name_ok(old_name@) && name_ok(new_name@) && !is_dot_name(old_name@) && !is_dot_name(new_name@)
                && old(self).fsno == old(new_parent).fsno ==> ({
                let same = old(self).inode.ino == old(new_parent).inode.ino;
                let werr = if same { dir_writable_error(old(self).inode) } else {
                    match dir_writable_error(old(self).inode) {
                        Some(e) => Some(e),
                        None => dir_writable_error(old(new_parent).inode),
                    }
                };
                match werr {
                    Some(e) => r == Err::<(), Errno>(e) && *final(context) == *old(context),
                    None => match listing(*old(context), old(self).inode) {
                        Err(e) => r == Err::<(), Errno>(e) && *final(context) == *old(context),
                        Ok(l) => match find_name(l, old_name@) {
                            None => r == Err::<(), Errno>(Errno::ENOENT) && *final(context) == *old(context),
                            Some(src) => {
                                &&& same && old_name@ == new_name@ ==> r is Ok && *final(context) == *old(context)
                                    && final(self).inode == old(self).inode && *final(table) == *old(table)
                                &&& same && old_name@ != new_name@ && find_name(l, new_name@) is None && r is Ok
                                    ==> renamed_in_dir(*old(context), *final(context), old(self).inode.ino,
                                        old(self).inode.i_generation, old(self).inode.i_size, old_name@, new_name@, src)
                                &&& !same && r is Ok && (listing(*old(context), old(new_parent).inode) matches Ok(l2)
                                    && find_name(l2, new_name@) is None)
                                    && (super::inode::inode_read_result(*old(context), src) matches Ok(raw)
                                    && (le16(raw, INODE_MODE_OFF as int) as u16) & MODE_TYPE_MASK != MODE_DIR)
                                    ==> renamed_across(*old(context), *final(context), old(new_parent).inode.ino,
                                        old(new_parent).inode.i_generation, old(new_parent).inode.i_size, old(self).inode.ino,
                                        old(self).inode.i_generation, old_name@, new_name@, src)
                            },
                        },
                    },
                }
            }),
    {
        if old_name.len() == 0 || old_name.len() > 255 || new_name.len() == 0 || new_name.len() > 255 {
            return Err(Errno::EINVAL);
        }
        if is_dot_or_dotdot(old_name) || is_dot_or_dotdot(new_name) {
            return Err(Errno::EINVAL);
        }
        if self.fsno != new_parent.fsno {
            return Err(Errno::EXDEV);
        }
        if self.inode.ino == new_parent.inode.ino {
            return self.rename_within(context, table, old_name, new_name, now);
        }
        ensure_dir_writable(&self.inode)?;
        ensure_dir_writable(&new_parent.inode)?;
        let src_ino = lookup_name_in_dir(context, &self.inode, old_name)?;
        let mut src_inode = context.read_inode(src_ino)?;
        let src_mode_type = src_inode.i_mode & MODE_TYPE_MASK;
        let file_type = dirent_file_type(src_inode.i_mode)?;
        if src_mode_type == MODE_DIR && new_parent.inode.ino == src_ino {
            return Err(Errno::EINVAL);
        }
        let fsno = context.fsno;
        let mut target_to_evict: Option<u32> = None;
        match lookup_name_in_dir(context, &new_parent.inode, new_name) {
            Ok(target_ino) => {
                if target_ino == src_ino {
                    return Ok(());
                }
                target_to_evict = remove_rename_target(context, table, &mut new_parent.inode, new_name, src_mode_type,
                    target_ino, now)?;
            },
            Err(Errno::ENOENT) => {},
            Err(err) => return Err(err),
        }
        self.inode.set_mtime(now);
        self.inode.set_ctime(now);
        new_parent.inode.set_mtime(now);
        new_parent.inode.set_ctime(now);
        src_inode.set_ctime(now);
        let new_pino = new_parent.inode.ino;
        let ghost s0 = *context;
        let ghost np_before = new_parent.inode;
        context.insert_dirent(new_pino, &mut new_parent.inode, new_name, src_ino, file_type)?;
        let ghost s1 = *context;
        let ghost d1 = new_parent.inode;
        if src_mode_type == MODE_DIR {
            context.patch_dotdot(src_ino, &src_inode, new_pino)?;
            self.inode.i_links_count = match self.inode.i_links_count.checked_sub(1) {
                Some(v) => v,
                None => return Err(Errno::EIO),
            };
            new_parent.inode.i_links_count = match new_parent.inode.i_links_count.checked_add(1) {
                Some(v) => v,
                None => return Err(Errno::EIO),
            };
            context.write_inode(&mut self.inode)?;
            context.write_inode(&mut new_parent.inode)?;
        }
        let old_pino = self.inode.ino;
        let ghost sb = *context;
        let ghost od = self.inode;
        let removed = context.remove_dirent(old_pino, &mut self.inode, old_name)?;
        let ghost s2 = *context;
        let ghost pblk = choose|pblk: u64| #![trigger super::dirops::dir_block_names(sb, old_pino, od.i_generation, pblk,
            old_name@, removed.0, removed.1)] super::dirops::dir_block_names(sb, old_pino, od.i_generation, pblk, old_name@,
            removed.0, removed.1) && entry_removed(sb, s2, old_pino, od.i_generation, pblk, old_name@);
        context.write_inode(&mut self.inode)?;
        let ghost s3 = *context;
        let ghost r1 = self.inode.raw@;
        context.write_inode(&mut new_parent.inode)?;
        let ghost s4 = *context;
        let ghost r2 = new_parent.inode.raw@;
        context.write_inode(&mut src_inode)?;
        proof {
            if src_mode_type != MODE_DIR && s0 == *old(context) && sb == s1 && od.i_generation == old(self).inode.i_generation
                && np_before.i_generation == old(new_parent).inode.i_generation && np_before.i_size == old(new_parent).inode.i_size
                && np_before.ino == old(new_parent).inode.ino && old_pino == old(self).inode.ino {
                lemma_renamed_across(s0, *context, new_pino, np_before.i_generation, np_before.i_size, old_pino,
                    od.i_generation, old_name@, new_name@, src_ino, np_before, s1, d1, spec_file_type_code(file_type), s2, pblk,
                    s3, r1, s4, r2, src_inode.raw@);
            }
        }
        table.sync_cached_inode(fsno, &src_inode);
        self.invalidate_dir_cache();
        new_parent.invalidate_dir_cache();
        if src_mode_type == MODE_DIR {
            table.invalidate_cached_dir(fsno, src_ino);
        }
        match target_to_evict {
            Some(ino) => table.evict_inode(fsno, ino),
            None => {},
        }
        Ok(())
    }

    /// Renames `old_name` to `new_name` within this directory (see `rename`).
    #[verifier::rlimit(100)]
    #[verifier::spinoff_prover]
    fn rename_within(&mut self, context: &mut Context, table: &mut InodeTable, old_name: &[u8], new_name: &[u8], now: u32)
        -> (r: SysResult<()>)
        requires
            old(context).wf(),
            old(self).inode.raw@.len() >= INODE_BLOCK_ARRAY_OFF + INODE_BLOCK_ARRAY_SIZE,
        ensures
            final(context).unchanged_but_dev(*old(context)),
            final(self).inode.ino == old(self).inode.ino,
            r is Ok ==> (listing(*old(context), old(self).inode) matches Ok(l) && find_name(l, old_name@) is Some),
            dir_writable_error(old(self).inode) matches Some(e) ==> r == Err::<(), Errno>(e)
                && *final(context) == *old(context),
            dir_writable_error(old(self).inode) is None ==> match listing(*old(context), old(self).inode) {
                Err(e) => r == Err::<(), Errno>(e) && *final(context) == *old(context),
                Ok(l) => match find_name(l, old_name@) {
                    None => r == Err::<(), Errno>(Errno::ENOENT) && *final(context) == *old(context),
                    Some(src) => {
                        &&& old_name@ == new_name@ ==> r is Ok && *final(context) == *old(context)
                            && *final(self) == *old(self) && *final(table) == *old(table)
                        &&& old_name@ != new_name@ && find_name(l, new_name@) is None && r is Ok
                            ==> renamed_in_dir(*old(context), *final(context), old(self).inode.ino, old(self).inode.i_generation,
                                old(self).inode.i_size, old_name@, new_name@, src)
                    },
                },
            },
    {
        ensure_dir_writable(&self.inode)?;
        let src_ino = lookup_name_in_dir(context, &self.inode, old_name)?;
        if bytes_eq(old_name, new_name) {
            return Ok(());
        }
        let mut src_inode = context.read_inode(src_ino)?;
        let src_mode_type = src_inode.i_mode & MODE_TYPE_MASK;
        let file_type = dirent_file_type(src_inode.i_mode)?;
        let fsno = context.fsno;
        let mut target_to_evict: Option<u32> = None;
        match lookup_name_in_dir(context, &self.inode, new_name) {
            Ok(target_ino) => {
                if target_ino == src_ino {
                    return Ok(());
                }
                target_to_evict = remove_rename_target(context, table, &mut self.inode, new_name, src_mode_type,
                    target_ino, now)?;
            },
            Err(Errno::ENOENT) => {},
            Err(err) => return Err(err),
        }
        self.inode.set_mtime(now);
        self.inode.set_ctime(now);
        src_inode.set_ctime(now);
        let pino = self.inode.ino;
        let ghost s0 = *context;
        let ghost timed = self.inode;
        move_name_within(context, pino, &mut self.inode, old_name, new_name, src_ino, file_type)?;
        let ghost s3 = *context;
        context.write_inode(&mut src_inode)?;
        proof {
            if s0 == *old(context) && timed.i_generation == old(self).inode.i_generation && timed.i_size == old(self).inode.i_size
                && pino == old(self).inode.ino {
                lemma_renamed_in_dir(s0, s3, *context, pino, timed.i_generation, timed.i_size,
                    old_name@, new_name@, src_ino, src_inode.raw@);
            }
        }

        table.sync_cached_inode(fsno, &src_inode);
        self.invalidate_dir_cache();
        match target_to_evict {
            Some(ino) => table.evict_inode(fsno, ino),
            None => {},
        }
        Ok(())
    }

    /// Sets the size of a regular, extent-mapped file: the dirty cached pages are written back
    /// first; shrinking unmaps the blocks past the new end and zeroes the rest of the last
    /// block kept; the record is written, and the cache forgets the pages past the new end.
    #[verifier::rlimit(60)]
    pub fn truncate(&mut self, context: &mut Context, new_size: u64) -> (r: SysResult<()>)
        requires
            old(context).wf(),
            old(self).cache_wf(),
            old(self).inode.raw@.len() >= INODE_BLOCK_ARRAY_OFF + INODE_BLOCK_ARRAY_SIZE,
        ensures
            final(context).unchanged_but_dev(*old(context)),
            final(self).cache_wf(),
            final(self).inode.ino == old(self).inode.ino,
            r is Ok && new_size != old(self).inode.i_size ==> forall|j: int| cached(final(self).page_cache.pages@, j) ==> j * 4096 < new_size,
            old(self).deleted ==> r == Err::<(), Errno>(Errno::EIO) && final(context).dev@ == old(context).dev@,
            !old(self).deleted && mode_type(old(self).inode.i_mode) == MODE_DIR ==> r == Err::<(), Errno>(Errno::EISDIR)
                && final(context).dev@ == old(context).dev@,
            !old(self).deleted && mode_type(old(self).inode.i_mode) != MODE_DIR && mode_type(old(self).inode.i_mode) != MODE_REG
                ==> r == Err::<(), Errno>(Errno::EINVAL) && final(context).dev@ == old(context).dev@,
            !old(self).deleted && mode_type(old(self).inode.i_mode) == MODE_REG
                && super::data_map::extent_data_error(old(self).inode) is Some
                ==> r is Err && final(context).dev@ == old(context).dev@,
            r is Ok ==> final(self).inode.i_size == new_size,
            ({
                let i = old(self).inode;
                let settled = !old(self).deleted && mode_type(i.i_mode) == MODE_REG
                    && super::data_map::extent_data_error(i) is None && i.i_size <= usize::MAX
                    && all_clean(old(self).page_cache.pages@);
                let bs = old(context).block_size as int;
                &&& settled && new_size == i.i_size ==> r is Ok && *final(context) == *old(context)
                    && final(self).inode == i
                &&& settled && new_size > i.i_size && r is Ok ==> inode_stored(*old(context), *final(context), i.ino,
                    final(self).inode.raw@) && root_bytes(final(self).inode) == root_bytes(i)
                &&& settled && new_size < i.i_size && new_size as int % bs != 0 && r is Ok ==>
                    exists|sr: Context, mid: Context, rec: Seq<u8>| #![trigger tail_zeroed(sr, mid, final(self).inode, new_size),
                        inode_stored(mid, *final(context), i.ino, rec)]
                        sr.unchanged_but_dev(*old(context)) && tail_zeroed(sr, mid, final(self).inode, new_size)
                        && inode_stored(mid, *final(context), i.ino, rec)
                &&& settled && new_size < i.i_size && r is Ok ==> (snapshot_spec(*old(context), i.ino, i) matches Ok(sn)
                    && rebuilt_root(root_bytes(final(self).inode), sn.0,
                        kept_spec(sn.1, new_size as int / bs + (if new_size as int % bs != 0 { 1int } else { 0int }), 0x1_0000_0000)))
            }),
    {
        if self.deleted {
            return Err(Errno::EIO);
        }
        self.flush_dirty_pages(context)?;
        let mode_type = self.inode.i_mode & MODE_TYPE_MASK;
        if mode_type == MODE_DIR {
            return Err(Errno::EISDIR);
        }
        if mode_type != MODE_REG {
            return Err(Errno::EINVAL);
        }
        if flags_contain(self.inode.i_flags, INODE_FLAG_INLINE_DATA) {
            return Err(Errno::EOPNOTSUPP);
        }
        if !flags_contain(self.inode.i_flags, INODE_FLAG_EXTENTS) {
            return Err(Errno::EOPNOTSUPP);
        }
        let old_size = self.inode.i_size;
        if new_size == old_size {
            return Ok(());
        }
        let bs = context.block_size as u64;
        let ino = self.inode.ino;
        let ghost mut sr: Context = *context;
        if new_size < old_size {
            let first_drop_u64 = new_size / bs + if new_size % bs != 0 { 1 } else { 0 };
            if first_drop_u64 > 0xFFFF_FFFFu64 {
                return Err(Errno::EFBIG);
            }
            let first_drop_lblk = first_drop_u64 as u32;
            context.remove_extent_range(ino, &mut self.inode, first_drop_lblk, 0xFFFF_FFFFu32)?;
            if new_size % bs != 0 {
                proof { sr = *context; }
                zero_tail(context, &self.inode, new_size)?;
            }
        }
        let ghost before_write = self.inode;
        let ghost mid = *context;
        self.inode.i_size = new_size;
        context.write_inode(&mut self.inode)?;
        proof {
            assert(root_bytes(self.inode) =~= root_bytes(before_write));
            if new_size < old_size && new_size % bs != 0 {
                assert(tail_zeroed(sr, mid, self.inode, new_size));
                assert(inode_stored(mid, *context, ino, self.inode.raw@));
            }
        }
        if new_size > usize::MAX as u64 {
            return Err(Errno::EFBIG);
        }
        self.page_cache.discard_after_truncate(new_size as usize);
        Ok(())
    }

    /// The target of a symlink into `buf` (as much as fits): from the block array for a fast
    /// symlink, else read from its data; none for an inode that is no symlink.
    pub fn readlink(&self, context: &Context, buf: &mut Vec<u8>) -> (r: SysResult<Option<usize>>)
        requires
            context.wf(),
            self.inode.raw@.len() >= INODE_BLOCK_ARRAY_OFF + INODE_BLOCK_ARRAY_SIZE,
        ensures
            final(buf)@.len() == old(buf)@.len(),
            mode_type(self.inode.i_mode) != MODE_LNK ==> r == Ok::<Option<usize>, Errno>(None),
            mode_type(self.inode.i_mode) == MODE_LNK && self.inode.i_blocks == 0 && self.inode.i_size <= INODE_BLOCK_ARRAY_SIZE
                ==> (r matches Ok(Some(n)) && n == (if old(buf)@.len() < self.inode.i_size { old(buf)@.len() as int } else { self.inode.i_size as int })
                && final(buf)@.subrange(0, n as int) == self.inode.raw@.subrange(INODE_BLOCK_ARRAY_OFF as int, INODE_BLOCK_ARRAY_OFF + n)),
    {
        if self.inode.i_mode & MODE_TYPE_MASK != MODE_LNK {
            return Ok(None);
        }
        if self.inode.i_size > usize::MAX as u64 {
            return Err(Errno::EFBIG);
        }
        let size = self.inode.i_size as usize;
        let len = if buf.len() < size { buf.len() } else { size };
        if self.inode.i_blocks == 0 && self.inode.i_size <= INODE_BLOCK_ARRAY_SIZE as u64 {
            let block = self.inode.i_block();
            let piece = crate::bytes::copy_range(block.as_slice(), 0, len);
            crate::bytes::copy_into(buf, 0, piece.as_slice());
            proof {
                assert(buf@.subrange(0, len as int) =~= self.inode.raw@.subrange(INODE_BLOCK_ARRAY_OFF as int,
                    INODE_BLOCK_ARRAY_OFF + len));
            }
            return Ok(Some(len));
        }
        let read = read_raw_at_locked(context, &self.inode, buf, 0)?;
        Ok(Some(read))
    }

    /// Sets the target of a symlink: kept in the block array when it fits there, else written
    /// as the file's data through a fresh extent tree; the times are set to `now`.
    #[verifier::rlimit(60)]
    pub fn set_symlink_target(&mut self, context: &mut Context, target: &[u8], now: u32) -> (r: SysResult<()>)
        requires
            old(context).wf(),
            old(self).inode.raw@.len() >= INODE_BLOCK_ARRAY_OFF + INODE_BLOCK_ARRAY_SIZE,
        ensures
            final(context).unchanged_but_dev(*old(context)),
            final(self).inode.ino == old(self).inode.ino,
            mode_type(old(self).inode.i_mode) != MODE_LNK ==> r == Err::<(), Errno>(Errno::EINVAL)
                && final(context).dev@ == old(context).dev@,
            r is Ok ==> final(self).inode.i_size == target@.len() && final(self).inode.i_mtime == now
                && final(self).inode.i_ctime == now,
            r is Ok && target@.len() <= INODE_BLOCK_ARRAY_SIZE ==> final(self).inode.i_blocks == 0,
            r is Ok && target@.len() <= INODE_BLOCK_ARRAY_SIZE ==> final(self).inode.raw@.subrange(
                INODE_BLOCK_ARRAY_OFF as int, INODE_BLOCK_ARRAY_OFF + target@.len()) == target@
                && !has_bits(final(self).inode.i_flags, INODE_FLAG_EXTENTS),
    {
        if self.inode.i_mode & MODE_TYPE_MASK != MODE_LNK {
            return Err(Errno::EINVAL);
        }
        let ino = self.inode.ino;
        if target.len() <= INODE_BLOCK_ARRAY_SIZE {
            if flags_contain(self.inode.i_flags, INODE_FLAG_EXTENTS) {
                context.remove_extent_range(ino, &mut self.inode, 0, 0xFFFF_FFFFu32)?;
            }
            set_fast_symlink(&mut self.inode, target);
            self.inode.set_mtime(now);
            self.inode.set_ctime(now);
            let ghost mid = self.inode.raw@;
            proof {
                assert(mid.subrange(INODE_BLOCK_ARRAY_OFF as int, INODE_BLOCK_ARRAY_OFF + target@.len()) =~= target@);
                lemma_and_not_clears(old(self).inode.i_flags);
            }
            context.write_inode(&mut self.inode)?;
            proof {
                assert(self.inode.raw@.subrange(INODE_BLOCK_ARRAY_OFF as int, INODE_BLOCK_ARRAY_OFF + target@.len())
                    =~= mid.subrange(INODE_BLOCK_ARRAY_OFF as int, INODE_BLOCK_ARRAY_OFF + target@.len()));
            }
            return Ok(());
        }
        if flags_contain(self.inode.i_flags, INODE_FLAG_EXTENTS) {
            context.remove_extent_range(ino, &mut self.inode, 0, 0xFFFF_FFFFu32)?;
        } else {
            self.inode.i_flags = self.inode.i_flags | INODE_FLAG_EXTENTS;
            context.init_empty_extent_root(&mut self.inode)?;
        }
        self.inode.i_size = 0;
        self.inode.i_blocks = 0;
        let written = write_extent_data_locked(context, &mut self.inode, target, 0, target.len())?;
        if written != target.len() {
            return Err(Errno::EIO);
        }
        self.inode.set_mtime(now);
        self.inode.set_ctime(now);
        context.write_inode(&mut self.inode)
    }

    /// Sets the target of a symlink (see `set_symlink_target`).
    pub fn symlink(&mut self, context: &mut Context, target: &[u8], now: u32) -> (r: SysResult<()>)
        requires
            old(context).wf(),
            old(self).inode.raw@.len() >= INODE_BLOCK_ARRAY_OFF + INODE_BLOCK_ARRAY_SIZE,
        ensures
            final(context).unchanged_but_dev(*old(context)),
            mode_type(old(self).inode.i_mode) != MODE_LNK ==> r == Err::<(), Errno>(Errno::EINVAL),
            r is Ok ==> final(self).inode.i_size == target@.len(),
            r is Ok && target@.len() <= INODE_BLOCK_ARRAY_SIZE ==> final(self).inode.raw@.subrange(
                INODE_BLOCK_ARRAY_OFF as int, INODE_BLOCK_ARRAY_OFF + target@.len()) == target@,
    {
        self.set_symlink_target(context, target, now)
    }

    /// Writes the dirty cached pages back, then the record if its metadata changed since it
    /// was last written; a deleted inode has nothing to write. On a failure the record stays
    /// marked changed.
    pub fn sync(&mut self, context: &mut Context) -> (r: SysResult<()>)
        requires
            old(context).wf(),
            old(self).cache_wf(),
            old(self).inode.raw@.len() >= INODE_BLOCK_ARRAY_OFF + INODE_BLOCK_ARRAY_SIZE,
        ensures
            final(context).unchanged_but_dev(*old(context)),
            final(self).cache_wf(),
            old(self).deleted ==> r is Ok && final(context).dev@ == old(context).dev@
                && final(self).metadata_dirty == old(self).metadata_dirty,
            !old(self).deleted && r is Ok ==> !final(self).metadata_dirty
                && (cacheable(old(self).inode) ==> all_clean(final(self).page_cache.pages@)),
            r is Err ==> final(self).metadata_dirty == old(self).metadata_dirty,
            !old(self).deleted && !old(self).metadata_dirty && (cacheable(old(self).inode) ==>
                old(self).inode.i_size <= usize::MAX && all_clean(old(self).page_cache.pages@))
                ==> r is Ok && final(context).dev@ == old(context).dev@,
    {
        if self.deleted {
            return Ok(());
        }
        self.flush_dirty_pages(context)?;
        if !self.metadata_dirty {
            return Ok(());
        }
        self.metadata_dirty = false;
        match context.write_inode(&mut self.inode) {
            Ok(()) => Ok(()),
            Err(err) => {
                self.metadata_dirty = true;
                Err(err)
            },
        }
    }

    /// The page `file_page_index` of the file, zero past its end; none at or past the end.
    pub fn load_raw_page(&self, context: &Context, file_page_index: usize) -> (r: SysResult<Option<Vec<u8>>>)
        requires
            context.wf(),
            self.inode.raw@.len() >= INODE_BLOCK_ARRAY_OFF + INODE_BLOCK_ARRAY_SIZE,
        ensures
            file_page_index * PAGE_SIZE > usize::MAX ==> r == Err::<Option<Vec<u8>>, Errno>(Errno::EFBIG),
            file_page_index * PAGE_SIZE <= usize::MAX && self.deleted ==> r == Err::<Option<Vec<u8>>, Errno>(Errno::EIO),
            file_page_index * PAGE_SIZE <= usize::MAX && !self.deleted && self.inode.i_size > usize::MAX
                ==> r == Err::<Option<Vec<u8>>, Errno>(Errno::EFBIG),
            file_page_index * PAGE_SIZE <= usize::MAX && !self.deleted && self.inode.i_size <= usize::MAX
                && file_page_index * PAGE_SIZE >= self.inode.i_size ==> r == Ok::<Option<Vec<u8>>, Errno>(None),
            r matches Ok(Some(p)) ==> p@.len() == PAGE_SIZE && forall|k: int| 0 <= k < PAGE_SIZE ==> ({
                let pos = file_page_index * PAGE_SIZE + k;
                &&& pos >= self.inode.i_size ==> #[trigger] p@[k] == 0
                &&& pos < self.inode.i_size ==> super::cached_io::file_view(*context, self.inode, pos, p@[k])
            }),
    {
        let offset = match file_page_index.checked_mul(PAGE_SIZE) {
            Some(o) => o,
            None => return Err(Errno::EFBIG),
        };
        if self.deleted {
            return Err(Errno::EIO);
        }
        if self.inode.i_size > usize::MAX as u64 {
            return Err(Errno::EFBIG);
        }
        let file_size = self.inode.i_size as usize;
        if offset >= file_size {
            return Ok(None);
        }
        let len = if file_size - offset < PAGE_SIZE { file_size - offset } else { PAGE_SIZE };
        let mut part: Vec<u8> = vec![0u8; len];
        let read = read_raw_at_locked(context, &self.inode, &mut part, offset)?;
        let mut frame: Vec<u8> = vec![0u8; PAGE_SIZE];
        let head = crate::bytes::copy_range(part.as_slice(), 0, read);
        crate::bytes::copy_into(&mut frame, 0, head.as_slice());
        proof {
            assert(read == len);
            assert forall|k: int| 0 <= k < PAGE_SIZE implies ({
                let pos = file_page_index * PAGE_SIZE + k;
                &&& pos >= self.inode.i_size ==> #[trigger] frame@[k] == 0
                &&& pos < self.inode.i_size ==> super::cached_io::file_view(*context, self.inode, pos, frame@[k])
            }) by {
                if k < len {
                    assert(frame@[k] == head@[k]);
                }
            }
        }
        Ok(Some(frame))
    }

    /// Writes page `file_page_index` back into the file, as much of it as lies before the end;
    /// a short write is `EIO`.
    pub fn writeback_mmap_shared_page(&mut self, context: &mut Context, file_page_index: usize, frame: &[u8])
        -> (r: SysResult<()>)
        requires
            old(context).wf(),
            old(self).inode.raw@.len() >= INODE_BLOCK_ARRAY_OFF + INODE_BLOCK_ARRAY_SIZE,
            frame@.len() == PAGE_SIZE,
        ensures
            final(context).unchanged_but_dev(*old(context)),
            write_changed(final(self).inode, old(self).inode),
            final(self).inode.raw@.len() == old(self).inode.raw@.len(),
            final(self).page_cache == old(self).page_cache,
            final(self).deleted == old(self).deleted,
            final(self).metadata_dirty == old(self).metadata_dirty,
            file_page_index * PAGE_SIZE > usize::MAX ==> r == Err::<(), Errno>(Errno::EFBIG),
            file_page_index * PAGE_SIZE <= usize::MAX && old(self).deleted ==> r == Err::<(), Errno>(Errno::EIO),
            file_page_index * PAGE_SIZE <= usize::MAX && !old(self).deleted && old(self).inode.i_size > usize::MAX
                ==> r == Err::<(), Errno>(Errno::EFBIG),
            file_page_index * PAGE_SIZE <= usize::MAX && !old(self).deleted && old(self).inode.i_size <= usize::MAX
                && file_page_index * PAGE_SIZE >= old(self).inode.i_size ==> r is Ok && final(context).dev@ == old(context).dev@
                && final(self).inode == old(self).inode,
            r is Ok ==> final(self).inode.i_size == old(self).inode.i_size,
    {
        let offset = match file_page_index.checked_mul(PAGE_SIZE) {
            Some(o) => o,
            None => return Err(Errno::EFBIG),
        };
        if self.deleted {
            return Err(Errno::EIO);
        }
        if self.inode.i_size > usize::MAX as u64 {
            return Err(Errno::EFBIG);
        }
        let file_size = self.inode.i_size as usize;
        if offset >= file_size {
            return Ok(());
        }
        let len = if file_size - offset < PAGE_SIZE { file_size - offset } else { PAGE_SIZE };
        let part = vstd::slice::slice_subrange(frame, 0, len);
        let written = write_raw_at_locked(context, &mut self.inode, part, offset)?;
        if written != len {
            return Err(Errno::EIO);
        }
        Ok(())
    }

    /// Whether the file's data may be mapped through the page cache.
    pub fn supports_file_mapping(&self) -> (r: bool)
        ensures
            r == cacheable(self.inode),
    {
        is_cacheable_file(&self.inode)
    }
}

} // verus!
