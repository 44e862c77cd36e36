//! Inode records: parsing, encoding, checksums, and reading and writing them in the inode table.
use vstd::prelude::*;
use crate::bytes::{le16, le32, put16, put32, splice, le_bytes32, get_u16_le, get_u32_le, write_u16, write_u32,
    copy_range, copy_into, u32_to_le_bytes};
use crate::crc::{crc32c, crc32c_update};
use crate::errno::{Errno, SysResult};
use super::ctx::Context;
use super::defs::{Ext4Inode, GD_INODE_TABLE_LO_OFF, GD_INODE_TABLE_HI_OFF, INODE_BLOCK_ARRAY_OFF, INODE_BLOCK_ARRAY_SIZE};
use super::io::{block_read, dev_store, blocks_write};
use super::group_desc::{gd_read_result, gd_wide32};

verus! {

pub const INODE_MODE_OFF: usize = 0x00;
pub const INODE_UID_OFF: usize = 0x02;
pub const INODE_SIZE_LO_OFF: usize = 0x04;
pub const INODE_ATIME_OFF: usize = 0x08;
pub const INODE_CTIME_OFF: usize = 0x0C;
pub const INODE_MTIME_OFF: usize = 0x10;
pub const INODE_GID_OFF: usize = 0x18;
pub const INODE_LINKS_COUNT_OFF: usize = 0x1A;
pub const INODE_BLOCKS_LO_OFF: usize = 0x1C;
pub const INODE_FLAGS_OFF: usize = 0x20;
pub const INODE_GENERATION_OFF: usize = 0x64;
pub const INODE_FILE_ACL_LO_OFF: usize = 0x68;
pub const INODE_SIZE_HIGH_OFF: usize = 0x6C;
pub const INODE_BLOCKS_HIGH_OFF: usize = 0x74;
pub const INODE_FILE_ACL_HIGH_OFF: usize = 0x76;
pub const INODE_CHECKSUM_LO_OFF: usize = 0x7C;
pub const INODE_EXTRA_ISIZE_OFF: usize = 0x80;
pub const INODE_CHECKSUM_HI_OFF: usize = 0x82;

/// The fields of `i` are those that the inode record `raw` holds.
pub open spec fn inode_fields(i: Ext4Inode, raw: Seq<u8>) -> bool {
    &&& i.raw@ == raw
    &&& i.i_mode == le16(raw, INODE_MODE_OFF as int)
    &&& i.i_uid == le16(raw, INODE_UID_OFF as int)
    &&& i.i_gid == le16(raw, INODE_GID_OFF as int)
    &&& i.i_links_count == le16(raw, INODE_LINKS_COUNT_OFF as int)
    &&& i.i_atime == le32(raw, INODE_ATIME_OFF as int)
    &&& i.i_ctime == le32(raw, INODE_CTIME_OFF as int)
    &&& i.i_mtime == le32(raw, INODE_MTIME_OFF as int)
    &&& i.i_size == le32(raw, INODE_SIZE_LO_OFF as int) + le32(raw, INODE_SIZE_HIGH_OFF as int) * 0x1_0000_0000
    &&& i.i_blocks == le32(raw, INODE_BLOCKS_LO_OFF as int) + le16(raw, INODE_BLOCKS_HIGH_OFF as int) * 0x1_0000_0000
    &&& i.i_flags == le32(raw, INODE_FLAGS_OFF as int)
    &&& i.i_generation == le32(raw, INODE_GENERATION_OFF as int)
    &&& i.i_file_acl == le32(raw, INODE_FILE_ACL_LO_OFF as int) + le16(raw, INODE_FILE_ACL_HIGH_OFF as int) * 0x1_0000_0000
    &&& i.i_extra_isize == le16(raw, INODE_EXTRA_ISIZE_OFF as int)
}

/// `new` keeps the length of `old` and its block-array bytes.
pub open spec fn block_array_kept(new: Seq<u8>, old: Seq<u8>) -> bool {
    &&& new.len() == old.len()
    &&& forall|k: int| INODE_BLOCK_ARRAY_OFF <= k < INODE_BLOCK_ARRAY_OFF + INODE_BLOCK_ARRAY_SIZE && k < old.len()
        ==> #[trigger] new[k] == old[k]
}

/// `raw` with every field of `i` but the extra size stored at its offset.
pub open spec fn inode_encode_fields(raw: Seq<u8>, i: Ext4Inode) -> Seq<u8> {
    let r = put16(raw, INODE_MODE_OFF as int, i.i_mode as int);
    let r = put16(r, INODE_UID_OFF as int, i.i_uid as int);
    let r = put16(r, INODE_GID_OFF as int, i.i_gid as int);
    let r = put16(r, INODE_LINKS_COUNT_OFF as int, i.i_links_count as int);
    let r = put32(r, INODE_ATIME_OFF as int, i.i_atime as int);
    let r = put32(r, INODE_CTIME_OFF as int, i.i_ctime as int);
    let r = put32(r, INODE_MTIME_OFF as int, i.i_mtime as int);
    let r = put32(r, INODE_SIZE_LO_OFF as int, i.i_size as int % 0x1_0000_0000);
    let r = put32(r, INODE_SIZE_HIGH_OFF as int, i.i_size as int / 0x1_0000_0000);
    let r = put32(r, INODE_BLOCKS_LO_OFF as int, i.i_blocks as int % 0x1_0000_0000);
    let r = put16(r, INODE_BLOCKS_HIGH_OFF as int, (i.i_blocks as int / 0x1_0000_0000) % 0x10000);
    let r = put32(r, INODE_FLAGS_OFF as int, i.i_flags as int);
    let r = put32(r, INODE_GENERATION_OFF as int, i.i_generation as int);
    let r = put32(r, INODE_FILE_ACL_LO_OFF as int, i.i_file_acl as int % 0x1_0000_0000);
    put16(r, INODE_FILE_ACL_HIGH_OFF as int, (i.i_file_acl as int / 0x1_0000_0000) % 0x10000)
}

/// `raw` with every field of `i` stored at its offset.
pub open spec fn inode_encode(raw: Seq<u8>, i: Ext4Inode) -> Seq<u8> {
    put16(inode_encode_fields(raw, i), INODE_EXTRA_ISIZE_OFF as int, i.i_extra_isize as int)
}

/// Whether the record keeps the high half of its checksum.
pub open spec fn inode_csum_hi(c: Context, raw: Seq<u8>) -> bool {
    c.inode_size > 128 && raw.len() >= INODE_EXTRA_ISIZE_OFF + 2 && le16(raw, INODE_EXTRA_ISIZE_OFF as int)
        >= INODE_CHECKSUM_HI_OFF + 2 - 128
}

/// The checksum of an inode record, with its checksum fields taken as zero, or the error.
pub open spec fn inode_checksum_result(c: Context, ino: u32, generation: u32, raw: Seq<u8>) -> Result<u32, Errno> {
    let lo = INODE_CHECKSUM_LO_OFF as int;
    let hi = INODE_CHECKSUM_HI_OFF as int;
    if raw.len() < lo + 2 {
        Err(Errno::EINVAL)
    } else {
        let a = crc32c(c.checksum_seed, le_bytes32(ino));
        let b = crc32c(a, le_bytes32(generation));
        let d = crc32c(b, raw.subrange(0, lo));
        let e = crc32c(d, seq![0u8, 0u8]);
        if inode_csum_hi(c, raw) {
            if raw.len() < hi + 2 {
                Err(Errno::EINVAL)
            } else {
                let f = crc32c(e, raw.subrange(lo + 2, hi));
                let g = crc32c(f, seq![0u8, 0u8]);
                Ok(crc32c(g, raw.subrange(hi + 2, raw.len() as int)))
            }
        } else {
            Ok(crc32c(e, raw.subrange(lo + 2, raw.len() as int)))
        }
    }
}

/// The checksum a record stores, or the error.
pub open spec fn inode_stored_result(c: Context, raw: Seq<u8>) -> Result<u32, Errno> {
    if raw.len() < INODE_CHECKSUM_LO_OFF + 2 {
        Err(Errno::EIO)
    } else if inode_csum_hi(c, raw) {
        if raw.len() < INODE_CHECKSUM_HI_OFF + 2 {
            Err(Errno::EIO)
        } else {
            Ok((le16(raw, INODE_CHECKSUM_LO_OFF as int) + le16(raw, INODE_CHECKSUM_HI_OFF as int) * 0x10000) as u32)
        }
    } else {
        Ok(le16(raw, INODE_CHECKSUM_LO_OFF as int) as u32)
    }
}

/// Whether a record's stored checksum matches it.
pub open spec fn inode_csum_verify(c: Context, ino: u32, generation: u32, raw: Seq<u8>) -> Result<(), Errno> {
    match inode_stored_result(c, raw) {
        Ok(stored) => match inode_checksum_result(c, ino, generation, raw) {
            Ok(calc) => {
                let expected = if inode_csum_hi(c, raw) { calc as int } else { calc as int % 0x10000 };
                if stored != expected { Err(Errno::EIO) } else { Ok(()) }
            },
            Err(e) => Err(e),
        },
        Err(e) => Err(e),
    }
}

/// Where inode `ino` lives: its inode-table block and byte offset there, or the error.
pub open spec fn inode_location_result(c: Context, ino: u32) -> Result<(u64, usize), Errno> {
    if ino == 0 {
        Err(Errno::EINVAL)
    } else {
        let idx = ino as int - 1;
        let group = idx / c.inodes_per_group as int;
        let index = idx % c.inodes_per_group as int;
        match gd_read_result(c, group) {
            Ok(raw) => {
                let byte_off = index * c.inode_size;
                let table = gd_wide32(raw, c.desc_size as int, GD_INODE_TABLE_LO_OFF as int, GD_INODE_TABLE_HI_OFF as int)
                    + byte_off / c.block_size as int;
                if table > u64::MAX {
                    Err(Errno::EINVAL)
                } else {
                    Ok((table as u64, (byte_off % c.block_size as int) as usize))
                }
            },
            Err(e) => Err(e),
        }
    }
}

/// The record of inode `ino` as the device holds it, or the error reading it.
pub open spec fn inode_raw_read(c: Context, ino: u32) -> Result<Seq<u8>, Errno> {
    match inode_location_result(c, ino) {
        Ok(loc) => match block_read(c, loc.0 as int) {
            Ok(b) => if loc.1 + c.inode_size > b.len() {
                Err(Errno::EIO)
            } else {
                Ok(b.subrange(loc.1 as int, loc.1 + c.inode_size))
            },
            Err(e) => Err(e),
        },
        Err(e) => Err(e),
    }
}

/// What reading inode `ino` yields: its record once parsed and checked, or the error.
pub open spec fn inode_read_result(c: Context, ino: u32) -> Result<Seq<u8>, Errno> {
    match inode_raw_read(c, ino) {
        Ok(raw) => if raw.len() < INODE_EXTRA_ISIZE_OFF + 2 {
            Err(Errno::EIO)
        } else if c.metadata_csum {
            match inode_csum_verify(c, ino, le32(raw, INODE_GENERATION_OFF as int) as u32, raw) {
                Ok(_) => Ok(raw),
                Err(e) => Err(e),
            }
        } else {
            Ok(raw)
        },
        Err(e) => Err(e),
    }
}

/// The record `raw` stored at the place of inode `ino` in the device of `pre`.
pub open spec fn inode_stored(pre: Context, post: Context, ino: u32, raw: Seq<u8>) -> bool {
    match inode_location_result(pre, ino) {
        Ok(loc) => match block_read(pre, loc.0 as int) {
            Ok(b) => post.dev@ == dev_store(pre.dev@, loc.0 * pre.block_size, splice(b, loc.1 as int, raw)),
            Err(_) => false,
        },
        Err(_) => false,
    }
}

/// Reading back an inode record that was just stored gives the bytes stored, when the record
/// lies inside its block and that block is not the one holding the group's descriptor.
pub proof fn law_inode_write_then_read(pre: Context, post: Context, ino: u32, raw: Seq<u8>)
    requires
        pre.wf(),
        post.unchanged_but_dev(pre),
        raw.len() == pre.inode_size,
        inode_stored(pre, post, ino, raw),
        inode_location_result(pre, ino) matches Ok(loc) && loc.1 + pre.inode_size <= pre.block_size
            && super::io::gd_location(pre, (ino - 1) / pre.inodes_per_group as int).0 != loc.0,
    ensures
        inode_raw_read(post, ino) == Ok::<Seq<u8>, Errno>(raw),
{
    let loc = inode_location_result(pre, ino)->Ok_0;
    let bs = pre.block_size as int;
    let b = block_read(pre, loc.0 as int)->Ok_0;
    let nb = splice(b, loc.1 as int, raw);
    assert(nb.len() == bs);
    super::io::lemma_store_frame(pre, pre.dev@, loc.0 as int, nb);
    let group = (ino - 1) / pre.inodes_per_group as int;
    let gdb = super::io::gd_location(pre, group).0;
    super::io::lemma_frame_block_read(pre, post, gdb as int, set![loc.0 as int]);
    assert(super::group_desc::gd_bytes(post, group) == super::group_desc::gd_bytes(pre, group));
    assert(gd_read_result(post, group) == gd_read_result(pre, group));
    assert(inode_location_result(post, ino) == inode_location_result(pre, ino));
    assert(post.dev@.subrange(loc.0 * bs, loc.0 * bs + bs) =~= nb);
    assert(block_read(post, loc.0 as int) == Ok::<Seq<u8>, Errno>(nb));
    assert(nb.subrange(loc.1 as int, loc.1 + pre.inode_size) =~= raw);
}

impl Ext4Inode {
    /// A copy of the record.
    pub fn duplicate(&self) -> (r: Ext4Inode)
        ensures
            r.raw@ == self.raw@,
            r == (Ext4Inode { raw: r.raw, ..*self }),
    {
        Ext4Inode {
            raw: vstd::slice::slice_to_vec(self.raw.as_slice()),
            ino: self.ino,
            i_mode: self.i_mode,
            i_uid: self.i_uid,
            i_gid: self.i_gid,
            i_links_count: self.i_links_count,
            i_atime: self.i_atime,
            i_ctime: self.i_ctime,
            i_mtime: self.i_mtime,
            i_size: self.i_size,
            i_blocks: self.i_blocks,
            i_flags: self.i_flags,
            i_generation: self.i_generation,
            i_file_acl: self.i_file_acl,
            i_extra_isize: self.i_extra_isize,
        }
    }

    /// Parses an inode record; `EIO` when the record is too short for its fields.
    pub fn parse_inode(ino: u32, raw: &[u8]) -> (r: SysResult<Ext4Inode>)
        ensures
            match r {
                Ok(i) => raw@.len() >= INODE_EXTRA_ISIZE_OFF + 2 && i.ino == ino && inode_fields(i, raw@),
                Err(e) => raw@.len() < INODE_EXTRA_ISIZE_OFF + 2 && e == Errno::EIO,
            },
    {
        if raw.len() < INODE_EXTRA_ISIZE_OFF + 2 {
            return Err(Errno::EIO);
        }
        let size_hi = get_u32_le(raw, INODE_SIZE_HIGH_OFF)? as u64;
        let size_lo = get_u32_le(raw, INODE_SIZE_LO_OFF)? as u64;
        let blocks_hi = get_u16_le(raw, INODE_BLOCKS_HIGH_OFF)? as u64;
        let blocks_lo = get_u32_le(raw, INODE_BLOCKS_LO_OFF)? as u64;
        let acl_hi = get_u16_le(raw, INODE_FILE_ACL_HIGH_OFF)? as u64;
        let acl_lo = get_u32_le(raw, INODE_FILE_ACL_LO_OFF)? as u64;
        let copy = copy_range(raw, 0, raw.len());
        assert(copy@ =~= raw@);
        Ok(Ext4Inode {
            i_mode: get_u16_le(raw, INODE_MODE_OFF)?,
            i_uid: get_u16_le(raw, INODE_UID_OFF)?,
            i_gid: get_u16_le(raw, INODE_GID_OFF)?,
            i_links_count: get_u16_le(raw, INODE_LINKS_COUNT_OFF)?,
            i_atime: get_u32_le(raw, INODE_ATIME_OFF)?,
            i_ctime: get_u32_le(raw, INODE_CTIME_OFF)?,
            i_mtime: get_u32_le(raw, INODE_MTIME_OFF)?,
            i_size: size_hi * 0x1_0000_0000 + size_lo,
            i_blocks: blocks_hi * 0x1_0000_0000 + blocks_lo,
            i_flags: get_u32_le(raw, INODE_FLAGS_OFF)?,
            i_generation: get_u32_le(raw, INODE_GENERATION_OFF)?,
            i_file_acl: acl_hi * 0x1_0000_0000 + acl_lo,
            i_extra_isize: get_u16_le(raw, INODE_EXTRA_ISIZE_OFF)?,
            raw: copy,
            ino,
        })
    }

    /// The 60-byte block map (the extent root) of the record.
    pub fn i_block(&self) -> (r: Vec<u8>)
        requires
            self.raw@.len() >= INODE_BLOCK_ARRAY_OFF + INODE_BLOCK_ARRAY_SIZE,
        ensures
            r@ == self.raw@.subrange(INODE_BLOCK_ARRAY_OFF as int, INODE_BLOCK_ARRAY_OFF + INODE_BLOCK_ARRAY_SIZE),
    {
        copy_range(self.raw.as_slice(), INODE_BLOCK_ARRAY_OFF, INODE_BLOCK_ARRAY_OFF + INODE_BLOCK_ARRAY_SIZE)
    }

    /// Replaces the 60-byte block map of the record.
    pub fn set_i_block(&mut self, data: &[u8])
        requires
            old(self).raw@.len() >= INODE_BLOCK_ARRAY_OFF + INODE_BLOCK_ARRAY_SIZE,
            data@.len() == INODE_BLOCK_ARRAY_SIZE,
        ensures
            final(self).raw@ == splice(old(self).raw@, INODE_BLOCK_ARRAY_OFF as int, data@),
            *final(self) == (Ext4Inode { raw: final(self).raw, ..*old(self) }),
    {
        copy_into(&mut self.raw, INODE_BLOCK_ARRAY_OFF, data);
    }

    /// Sets the access time.
    pub fn set_atime(&mut self, secs: u32)
        ensures
            *final(self) == (Ext4Inode { i_atime: secs, ..*old(self) }),
    {
        self.i_atime = secs;
    }

    /// Sets the modification time.
    pub fn set_mtime(&mut self, secs: u32)
        ensures
            *final(self) == (Ext4Inode { i_mtime: secs, ..*old(self) }),
    {
        self.i_mtime = secs;
    }

    /// Sets the change time.
    pub fn set_ctime(&mut self, secs: u32)
        ensures
            *final(self) == (Ext4Inode { i_ctime: secs, ..*old(self) }),
    {
        self.i_ctime = secs;
    }
}

impl Context {
    /// Where inode `ino` lives in its group's inode table.
    pub fn inode_location(&self, ino: u32) -> (r: SysResult<(u64, usize)>)
        requires
            self.wf(),
        ensures
            r == inode_location_result(*self, ino),
    {
        if ino == 0 {
            return Err(Errno::EINVAL);
        }
        let idx = ino - 1;
        let group = idx / self.inodes_per_group;
        let index = idx % self.inodes_per_group;
        let gd = self.read_group_desc(group)?;
        assert((index as u64) * (self.inode_size as u64) <= 0xFFFF_FFFFu64 * 0xFFFFu64) by (nonlinear_arith)
            requires
                index <= 0xFFFF_FFFFu32,
                self.inode_size <= 0xFFFFu16,
        ;
        let byte_off_in_group = (index as u64) * (self.inode_size as u64);
        let block_off = byte_off_in_group / self.block_size as u64;
        let off_in_block = (byte_off_in_group % self.block_size as u64) as usize;
        let table_block = match gd.inode_table_first_block.checked_add(block_off) {
            Some(t) => t,
            None => return Err(Errno::EINVAL),
        };
        Ok((table_block, off_in_block))
    }

    /// Whether the record keeps the high half of its checksum.
    pub fn has_csum_hi(&self, inode_raw: &[u8]) -> (r: SysResult<bool>)
        ensures
            r == Ok::<bool, Errno>(inode_csum_hi(*self, inode_raw@)),
    {
        if self.inode_size <= 128 {
            return Ok(false);
        }
        if inode_raw.len() < INODE_EXTRA_ISIZE_OFF + 2 {
            return Ok(false);
        }
        let extra = get_u16_le(inode_raw, INODE_EXTRA_ISIZE_OFF)?;
        Ok(extra as usize >= INODE_CHECKSUM_HI_OFF + 2 - 128)
    }

    /// The checksum of an inode record, covering the inode number and generation.
    pub fn inode_checksum(&self, ino: u32, generation: u32, inode_raw: &[u8]) -> (r: SysResult<u32>)
        ensures
            r == inode_checksum_result(*self, ino, generation, inode_raw@),
    {
        if inode_raw.len() < INODE_CHECKSUM_LO_OFF + 2 {
            return Err(Errno::EINVAL);
        }
        let zero2: Vec<u8> = vec![0u8, 0u8];
        proof { assert(zero2@ =~= seq![0u8, 0u8]); }
        let mut crc = self.checksum_seed;
        let ino_bytes = u32_to_le_bytes(ino);
        crc = crc32c_update(crc, ino_bytes.as_slice());
        let gen_bytes = u32_to_le_bytes(generation);
        crc = crc32c_update(crc, gen_bytes.as_slice());
        let head = copy_range(inode_raw, 0, INODE_CHECKSUM_LO_OFF);
        crc = crc32c_update(crc, head.as_slice());
        crc = crc32c_update(crc, zero2.as_slice());
        if self.has_csum_hi(inode_raw)? {
            if inode_raw.len() < INODE_CHECKSUM_HI_OFF + 2 {
                return Err(Errno::EINVAL);
            }
            let mid = copy_range(inode_raw, INODE_CHECKSUM_LO_OFF + 2, INODE_CHECKSUM_HI_OFF);
            crc = crc32c_update(crc, mid.as_slice());
            crc = crc32c_update(crc, zero2.as_slice());
            let tail = copy_range(inode_raw, INODE_CHECKSUM_HI_OFF + 2, inode_raw.len());
            crc = crc32c_update(crc, tail.as_slice());
        } else {
            let tail = copy_range(inode_raw, INODE_CHECKSUM_LO_OFF + 2, inode_raw.len());
            crc = crc32c_update(crc, tail.as_slice());
        }
        Ok(crc)
    }

    /// The checksum the record stores.
    pub fn inode_stored_checksum(&self, inode_raw: &[u8]) -> (r: SysResult<u32>)
        ensures
            r == inode_stored_result(*self, inode_raw@),
    {
        let lo = get_u16_le(inode_raw, INODE_CHECKSUM_LO_OFF)? as u32;
        if self.has_csum_hi(inode_raw)? {
            let hi = get_u16_le(inode_raw, INODE_CHECKSUM_HI_OFF)? as u32;
            Ok(lo + hi * 0x10000)
        } else {
            Ok(lo)
        }
    }

    /// Stores a checksum in the record: the low half always, the high half where the record keeps it.
    pub fn set_inode_checksum(&self, inode_raw: &mut Vec<u8>, csum: u32) -> (r: SysResult<()>)
        ensures
            match r {
                Ok(_) => old(inode_raw)@.len() >= INODE_CHECKSUM_LO_OFF + 2 && final(inode_raw)@ == (if inode_csum_hi(*self, old(inode_raw)@) {
                    put16(put16(old(inode_raw)@, INODE_CHECKSUM_LO_OFF as int, csum as int % 0x10000),
                        INODE_CHECKSUM_HI_OFF as int, csum as int / 0x10000)
                } else {
                    put16(old(inode_raw)@, INODE_CHECKSUM_LO_OFF as int, csum as int % 0x10000)
                }),
                Err(e) => e == Errno::EIO && (old(inode_raw)@.len() < INODE_CHECKSUM_LO_OFF + 2
                    && final(inode_raw)@ == old(inode_raw)@ || inode_csum_hi(*self, old(inode_raw)@)
                    && old(inode_raw)@.len() >= INODE_CHECKSUM_LO_OFF + 2 && old(inode_raw)@.len() < INODE_CHECKSUM_HI_OFF + 2),
            },
    {
        if inode_raw.len() < INODE_CHECKSUM_LO_OFF + 2 {
            return Err(Errno::EIO);
        }
        let hi = self.has_csum_hi(inode_raw.as_slice())?;
        write_u16(inode_raw, INODE_CHECKSUM_LO_OFF, (csum % 0x10000) as u16);
        if hi {
            if inode_raw.len() < INODE_CHECKSUM_HI_OFF + 2 {
                return Err(Errno::EIO);
            }
            write_u16(inode_raw, INODE_CHECKSUM_HI_OFF, (csum / 0x10000) as u16);
        }
        Ok(())
    }

    /// Checks the record's stored checksum.
    pub fn verify_inode_checksum(&self, inode: &Ext4Inode) -> (r: SysResult<()>)
        ensures
            r == inode_csum_verify(*self, inode.ino, inode.i_generation, inode.raw@),
    {
        let stored = self.inode_stored_checksum(inode.raw.as_slice())?;
        let calc = self.inode_checksum(inode.ino, inode.i_generation, inode.raw.as_slice())?;
        let expected = if self.has_csum_hi(inode.raw.as_slice())? { calc } else { calc % 0x10000 };
        if stored != expected {
            return Err(Errno::EIO);
        }
        Ok(())
    }

    /// Stores the fields of `inode` into its record.
    pub fn encode_inode(&self, inode: &mut Ext4Inode) -> (r: SysResult<()>)
        ensures
            *final(inode) == (Ext4Inode { raw: final(inode).raw, ..*old(inode) }),
            block_array_kept(final(inode).raw@, old(inode).raw@),
            old(inode).raw@.len() != self.inode_size ==> r == Err::<(), Errno>(Errno::EINVAL) && *final(inode) == *old(inode),
            old(inode).raw@.len() == self.inode_size && self.inode_size < INODE_EXTRA_ISIZE_OFF + 2 ==> r == Err::<(), Errno>(Errno::EIO),
            old(inode).raw@.len() == self.inode_size && self.inode_size >= INODE_EXTRA_ISIZE_OFF + 2 ==> r is Ok,
            r is Ok ==> final(inode).raw@ == inode_encode(old(inode).raw@, *old(inode))
                && *final(inode) == (Ext4Inode { raw: final(inode).raw, ..*old(inode) }),
    {
        if inode.raw.len() != self.inode_size as usize {
            return Err(Errno::EINVAL);
        }
        if inode.raw.len() < INODE_FILE_ACL_HIGH_OFF + 2 {
            return Err(Errno::EIO);
        }
        let ghost r0 = inode.raw@;
        let ghost i0 = *inode;
        let mode = inode.i_mode;
        write_u16(&mut inode.raw, INODE_MODE_OFF, mode);
        let uid = inode.i_uid;
        write_u16(&mut inode.raw, INODE_UID_OFF, uid);
        let gid = inode.i_gid;
        write_u16(&mut inode.raw, INODE_GID_OFF, gid);
        let links = inode.i_links_count;
        write_u16(&mut inode.raw, INODE_LINKS_COUNT_OFF, links);
        let atime = inode.i_atime;
        write_u32(&mut inode.raw, INODE_ATIME_OFF, atime);
        let ctime = inode.i_ctime;
        write_u32(&mut inode.raw, INODE_CTIME_OFF, ctime);
        let mtime = inode.i_mtime;
        write_u32(&mut inode.raw, INODE_MTIME_OFF, mtime);
        let size = inode.i_size;
        write_u32(&mut inode.raw, INODE_SIZE_LO_OFF, (size % 0x1_0000_0000) as u32);
        write_u32(&mut inode.raw, INODE_SIZE_HIGH_OFF, (size / 0x1_0000_0000) as u32);
        let blocks = inode.i_blocks;
        write_u32(&mut inode.raw, INODE_BLOCKS_LO_OFF, (blocks % 0x1_0000_0000) as u32);
        write_u16(&mut inode.raw, INODE_BLOCKS_HIGH_OFF, ((blocks / 0x1_0000_0000) % 0x10000) as u16);
        let flags = inode.i_flags;
        write_u32(&mut inode.raw, INODE_FLAGS_OFF, flags);
        let generation = inode.i_generation;
        write_u32(&mut inode.raw, INODE_GENERATION_OFF, generation);
        let acl = inode.i_file_acl;
        write_u32(&mut inode.raw, INODE_FILE_ACL_LO_OFF, (acl % 0x1_0000_0000) as u32);
        write_u16(&mut inode.raw, INODE_FILE_ACL_HIGH_OFF, ((acl / 0x1_0000_0000) % 0x10000) as u16);
        assert(inode.raw@ == inode_encode_fields(r0, i0));
        if inode.raw.len() < INODE_EXTRA_ISIZE_OFF + 2 {
            return Err(Errno::EIO);
        }
        let extra = inode.i_extra_isize;
        write_u16(&mut inode.raw, INODE_EXTRA_ISIZE_OFF, extra);
        Ok(())
    }

    /// Reads, parses and (with metadata checksums) checks inode `ino`.
    pub fn read_inode(&self, ino: u32) -> (r: SysResult<Ext4Inode>)
        requires
            self.wf(),
        ensures
            match r {
                Ok(i) => inode_read_result(*self, ino) == Ok::<Seq<u8>, Errno>(i.raw@) && i.ino == ino
                    && inode_fields(i, i.raw@) && i.raw@.len() == self.inode_size,
                Err(e) => inode_read_result(*self, ino) == Err::<Seq<u8>, Errno>(e),
            },
    {
        let (table_block, off_in_block) = self.inode_location(ino)?;
        let block = self.read_fs_block(table_block)?;
        let inode_size = self.inode_size as usize;
        let end = off_in_block + inode_size;
        if end > block.len() {
            return Err(Errno::EIO);
        }
        let raw = copy_range(block.as_slice(), off_in_block, end);
        let inode = Ext4Inode::parse_inode(ino, raw.as_slice())?;
        if self.metadata_csum {
            self.verify_inode_checksum(&inode)?;
        }
        Ok(inode)
    }

    /// Encodes `inode`, stores its checksum (with metadata checksums) and writes its record
    /// into the inode table.
    pub fn write_inode(&mut self, inode: &mut Ext4Inode) -> (r: SysResult<()>)
        requires
            old(self).wf(),
        ensures
            final(self).unchanged_but_dev(*old(self)),
            *final(inode) == (Ext4Inode { raw: final(inode).raw, ..*old(inode) }),
            block_array_kept(final(inode).raw@, old(inode).raw@),
            old(inode).raw@.len() != old(self).inode_size ==> r == Err::<(), Errno>(Errno::EINVAL)
                && final(self).dev@ == old(self).dev@,
            r is Ok ==> final(inode).raw@.len() == old(self).inode_size,
            r is Ok ==> inode_stored(*old(self), *final(self), old(inode).ino, final(inode).raw@),
            r is Ok ==> (inode_location_result(*old(self), old(inode).ino) matches Ok(loc)
                && loc.1 + old(self).inode_size <= old(self).block_size),
            r is Ok && !old(self).metadata_csum ==> final(inode).raw@ == inode_encode(old(inode).raw@, *old(inode)),
            r is Ok && old(self).metadata_csum ==> inode_checksum_result(*old(self), old(inode).ino, old(inode).i_generation,
                inode_encode(old(inode).raw@, *old(inode))) is Ok,
            r is Err ==> final(self).dev@ == old(self).dev@,
    {
        if inode.raw.len() != self.inode_size as usize {
            return Err(Errno::EINVAL);
        }
        self.encode_inode(inode)?;
        if self.metadata_csum {
            let csum = self.inode_checksum(inode.ino, inode.i_generation, inode.raw.as_slice())?;
            self.set_inode_checksum(&mut inode.raw, csum)?;
        }
        let (table_block, off_in_block) = self.inode_location(inode.ino)?;
        let mut block = self.read_fs_block(table_block)?;
        let ghost b0 = block@;
        let inode_size = self.inode_size as usize;
        let end = off_in_block + inode_size;
        if end > block.len() {
            return Err(Errno::EIO);
        }
        copy_into(&mut block, off_in_block, inode.raw.as_slice());
        let r = self.write_fs_block(table_block, block.as_slice());
        r
    }
}

} // verus!
