//! Block group descriptors and bitmaps.
use vstd::prelude::*;
use crate::bytes::{le16, le32, put16, put32, get_u16_le, get_u32_le, read_u16, read_u32, write_u16, write_u32,
    copy_into, copy_range, splice, u32_to_le_bytes, le_bytes32, lemma_put16_get, lemma_put32_get};
use crate::crc::{crc16, crc16_update, crc32c, crc32c_update, lemma_crc32c_append, lemma_crc16_append};
use crate::errno::{Errno, SysResult};
use super::bitmap::bit_of;
use super::ctx::Context;
use super::defs::{
    has_bits, flags_contain, Ext4GroupDesc, Ext4BitmapBlock, EXT4_MAX_DESC_SIZE, RO_COMPAT_GDT_CSUM, INCOMPAT_BIT64,
    EXT4_BG_BLOCK_UNINIT, EXT4_BG_INODE_UNINIT, GD_BLOCK_BITMAP_LO_OFF, GD_INODE_BITMAP_LO_OFF,
    GD_INODE_TABLE_LO_OFF, GD_FREE_BLOCKS_LO_OFF, GD_FREE_INODES_LO_OFF, GD_USED_DIRS_LO_OFF, GD_FLAGS_OFF,
    GD_BLOCK_BITMAP_CSUM_LO_OFF, GD_INODE_BITMAP_CSUM_LO_OFF, GD_ITABLE_UNUSED_LO_OFF, GD_CHECKSUM_OFF,
    GD_BLOCK_BITMAP_HI_OFF, GD_INODE_BITMAP_HI_OFF, GD_INODE_TABLE_HI_OFF, GD_FREE_BLOCKS_HI_OFF,
    GD_FREE_INODES_HI_OFF, GD_USED_DIRS_HI_OFF, GD_ITABLE_UNUSED_HI_OFF, GD_BLOCK_BITMAP_CSUM_HI_OFF,
    GD_INODE_BITMAP_CSUM_HI_OFF,
};
use super::io::{block_read, blocks_write, dev_store, gd_location, wrote, only_blocks_changed, lemma_store_frame};

verus! {

/// A 64-bit descriptor field from its low and (for large descriptors) high words.
pub open spec fn gd_wide32(raw: Seq<u8>, ds: int, lo: int, hi: int) -> int {
    le32(raw, lo) + (if ds > 32 { le32(raw, hi) } else { 0 }) * 0x1_0000_0000
}

/// A 32-bit descriptor field from its low and (for large descriptors) high halves.
pub open spec fn gd_wide16(raw: Seq<u8>, ds: int, lo: int, hi: int) -> int {
    le16(raw, lo) + (if ds > 32 { le16(raw, hi) } else { 0 }) * 0x10000
}

/// A bitmap checksum from its low and (for 64-byte descriptors) high halves.
pub open spec fn gd_csum16(raw: Seq<u8>, ds: int, lo: int, hi: int) -> int {
    le16(raw, lo) + (if ds >= 64 { le16(raw, hi) } else { 0 }) * 0x10000
}

/// The fields of `gd` are those its descriptor bytes `raw` encode.
pub open spec fn gd_fields(gd: Ext4GroupDesc, raw: Seq<u8>, ds: int) -> bool {
    &&& gd.block_bitmap == gd_wide32(raw, ds, GD_BLOCK_BITMAP_LO_OFF as int, GD_BLOCK_BITMAP_HI_OFF as int)
    &&& gd.inode_bitmap == gd_wide32(raw, ds, GD_INODE_BITMAP_LO_OFF as int, GD_INODE_BITMAP_HI_OFF as int)
    &&& gd.inode_table_first_block == gd_wide32(raw, ds, GD_INODE_TABLE_LO_OFF as int, GD_INODE_TABLE_HI_OFF as int)
    &&& gd.free_blocks_count == gd_wide16(raw, ds, GD_FREE_BLOCKS_LO_OFF as int, GD_FREE_BLOCKS_HI_OFF as int)
    &&& gd.free_inodes_count == gd_wide16(raw, ds, GD_FREE_INODES_LO_OFF as int, GD_FREE_INODES_HI_OFF as int)
    &&& gd.used_dirs_count == gd_wide16(raw, ds, GD_USED_DIRS_LO_OFF as int, GD_USED_DIRS_HI_OFF as int)
    &&& gd.flags == le16(raw, GD_FLAGS_OFF as int)
    &&& gd.itable_unused == gd_wide16(raw, ds, GD_ITABLE_UNUSED_LO_OFF as int, GD_ITABLE_UNUSED_HI_OFF as int)
    &&& gd.block_bitmap_csum == gd_csum16(raw, ds, GD_BLOCK_BITMAP_CSUM_LO_OFF as int, GD_BLOCK_BITMAP_CSUM_HI_OFF as int)
    &&& gd.inode_bitmap_csum == gd_csum16(raw, ds, GD_INODE_BITMAP_CSUM_LO_OFF as int, GD_INODE_BITMAP_CSUM_HI_OFF as int)
}

/// The value a field keeps through a descriptor of size `ds`: small descriptors drop the high half.
pub open spec fn keep(v: int, ds: int, narrow: int, limit: int) -> int {
    if ds > limit { v } else { v % narrow }
}

/// The descriptor bytes `raw` encode the fields of `gd` as far as size `ds` holds them.
pub open spec fn gd_encodes(gd: Ext4GroupDesc, raw: Seq<u8>, ds: int) -> bool {
    &&& gd_wide32(raw, ds, GD_BLOCK_BITMAP_LO_OFF as int, GD_BLOCK_BITMAP_HI_OFF as int) == keep(gd.block_bitmap as int, ds, 0x1_0000_0000, 32)
    &&& gd_wide32(raw, ds, GD_INODE_BITMAP_LO_OFF as int, GD_INODE_BITMAP_HI_OFF as int) == keep(gd.inode_bitmap as int, ds, 0x1_0000_0000, 32)
    &&& gd_wide32(raw, ds, GD_INODE_TABLE_LO_OFF as int, GD_INODE_TABLE_HI_OFF as int) == keep(gd.inode_table_first_block as int, ds, 0x1_0000_0000, 32)
    &&& gd_wide16(raw, ds, GD_FREE_BLOCKS_LO_OFF as int, GD_FREE_BLOCKS_HI_OFF as int) == keep(gd.free_blocks_count as int, ds, 0x10000, 32)
    &&& gd_wide16(raw, ds, GD_FREE_INODES_LO_OFF as int, GD_FREE_INODES_HI_OFF as int) == keep(gd.free_inodes_count as int, ds, 0x10000, 32)
    &&& gd_wide16(raw, ds, GD_USED_DIRS_LO_OFF as int, GD_USED_DIRS_HI_OFF as int) == keep(gd.used_dirs_count as int, ds, 0x10000, 32)
    &&& le16(raw, GD_FLAGS_OFF as int) == gd.flags
    &&& gd_wide16(raw, ds, GD_ITABLE_UNUSED_LO_OFF as int, GD_ITABLE_UNUSED_HI_OFF as int) == keep(gd.itable_unused as int, ds, 0x10000, 32)
    &&& gd_csum16(raw, ds, GD_BLOCK_BITMAP_CSUM_LO_OFF as int, GD_BLOCK_BITMAP_CSUM_HI_OFF as int) == keep(gd.block_bitmap_csum as int, ds, 0x10000, 63)
    &&& gd_csum16(raw, ds, GD_INODE_BITMAP_CSUM_LO_OFF as int, GD_INODE_BITMAP_CSUM_HI_OFF as int) == keep(gd.inode_bitmap_csum as int, ds, 0x10000, 63)
}

/// The ext4 checksum of descriptor bytes `raw` of group `group`.
pub open spec fn gd_checksum(c: Context, group: u32, raw: Seq<u8>) -> u16 {
    let off = GD_CHECKSUM_OFF as int;
    if c.metadata_csum {
        let a = crc32c(c.checksum_seed, le_bytes32(group));
        let b = crc32c(a, raw.subrange(0, off));
        let d = crc32c(b, seq![0u8, 0u8]);
        let e = if raw.len() > off + 2 { crc32c(d, raw.subrange(off + 2, raw.len() as int)) } else { d };
        (e % 0x10000) as u16
    } else if has_bits(c.feature_ro_compat, RO_COMPAT_GDT_CSUM) {
        let a = crc16(0xFFFF, c.uuid@);
        let b = crc16(a, le_bytes32(group));
        let d = crc16(b, raw.subrange(0, off));
        if raw.len() > off + 2 && has_bits(c.feature_incompat, INCOMPAT_BIT64) {
            crc16(d, raw.subrange(off + 2, raw.len() as int))
        } else {
            d
        }
    } else {
        0
    }
}

/// Descriptor sizes whose high-half fields all fit: the base 32 bytes, or at least 52.
pub open spec fn gd_size_ok(ds: int) -> bool {
    ds <= 32 || ds >= 0x34
}

/// Whether descriptor checksums are kept.
pub open spec fn gd_checksummed(c: Context) -> bool {
    c.metadata_csum || has_bits(c.feature_ro_compat, RO_COMPAT_GDT_CSUM)
}

/// The bytes of the descriptor of `group` as the device holds them.
pub open spec fn gd_bytes(c: Context, group: int) -> Result<Seq<u8>, Errno> {
    let (pblk, off) = gd_location(c, group);
    if group >= c.groups_count {
        Err(Errno::EINVAL)
    } else {
        match block_read(c, pblk as int) {
            Ok(b) => if gd_size_ok(c.desc_size as int) {
                Ok(b.subrange(off as int, off + c.desc_size))
            } else {
                Err(Errno::EIO)
            },
            Err(e) => Err(e),
        }
    }
}

/// The device after `post` holds the descriptor bytes `raw` of `group` stored into the
/// descriptor-table block that `pre` read, and nothing else changed.
pub open spec fn gd_stored(pre: Context, post: Context, group: int, raw: Seq<u8>) -> bool {
    match block_read(pre, gd_location(pre, group).0 as int) {
        Ok(b) => post.dev@ == dev_store(pre.dev@, gd_location(pre, group).0 * pre.block_size,
            splice(b, gd_location(pre, group).1 as int, raw)),
        Err(_) => false,
    }
}

/// What reading the descriptor of `group` yields: its bytes or the error.
pub open spec fn gd_read_result(c: Context, group: int) -> Result<Seq<u8>, Errno> {
    match gd_bytes(c, group) {
        Ok(raw) => if gd_checksummed(c) && le16(raw, GD_CHECKSUM_OFF as int) != gd_checksum(c, group as u32, raw) as int {
            Err(Errno::EIO)
        } else {
            Ok(raw)
        },
        Err(e) => Err(e),
    }
}

/// The number of bitmap bytes a checksum covers.
pub open spec fn bitmap_csum_len(c: Context, is_block: bool) -> int {
    ((if is_block { c.blocks_per_group } else { c.inodes_per_group }) as int + 7) / 8
}

/// The checksum of a bitmap.
pub open spec fn spec_bitmap_checksum(c: Context, bitmap: Seq<u8>, is_block: bool) -> u32 {
    crc32c(c.checksum_seed, bitmap.subrange(0, bitmap_csum_len(c, is_block)))
}

/// A descriptor slot lies inside its block.
pub proof fn lemma_slot_fits(g: int, bs: int, ds: int)
    requires
        ds > 0,
        bs >= ds,
        g >= 0,
    ensures
        (g % (bs / ds)) * ds + ds <= bs,
{
    let d = bs / ds;
    assert(d >= 1) by (nonlinear_arith)
        requires
            d == bs / ds,
            bs >= ds,
            ds > 0,
    ;
    assert(g % d < d) by (nonlinear_arith)
        requires
            d >= 1,
    ;
    assert(d * ds <= bs) by (nonlinear_arith)
        requires
            d == bs / ds,
            ds > 0,
    ;
    assert((g % d) * ds + ds <= d * ds) by (nonlinear_arith)
        requires
            g % d < d,
            ds > 0,
            g % d >= 0,
    ;
}

/// Reading back a block from a device that just stored it gives the stored bytes.
pub proof fn lemma_block_read_after_store(c: Context, new: Context, pblk: int, data: Seq<u8>)
    requires
        c.wf(),
        0 <= pblk,
        new.unchanged_but_dev(c),
        block_read(c, pblk) is Ok,
        data.len() == c.block_size,
        new.dev@ == dev_store(c.dev@, pblk * c.block_size, data),
    ensures
        block_read(new, pblk) == Ok::<Seq<u8>, Errno>(data),
{
    let bs = c.block_size as int;
    let p = pblk * bs;
    let a = c.dev@.subrange(0, p);
    let b = c.dev@.subrange(p + bs, c.dev@.len() as int);
    assert(a.len() == p);
    assert(new.dev@ == a + data + b);
    assert(new.dev@.len() == c.dev@.len());
    assert forall|i: int| 0 <= i < bs implies new.dev@.subrange(p, p + bs)[i] == data[i] by {
        assert(new.dev@[p + i] == (a + data)[p + i]);
    }
    assert(new.dev@.subrange(p, p + bs) =~= data);
}

/// The descriptor checksum ignores the checksum field itself.
pub proof fn lemma_gd_checksum_ignores_field(c: Context, group: u32, raw: Seq<u8>, v: int)
    requires
        raw.len() >= GD_CHECKSUM_OFF + 2,
    ensures
        gd_checksum(c, group, put16(raw, GD_CHECKSUM_OFF as int, v)) == gd_checksum(c, group, raw),
{
    let off = GD_CHECKSUM_OFF as int;
    let raw2 = put16(raw, off, v);
    assert(raw2.subrange(0, off) =~= raw.subrange(0, off));
    assert(raw2.subrange(off + 2, raw.len() as int) =~= raw.subrange(off + 2, raw.len() as int));
}

proof fn lemma_u32_word(v: u32)
    ensures
        (v as int % 0x10000) + ((v as int / 0x10000) % 0x10000) * 0x10000 == v,
{
}

impl Context {
    /// Reads and parses the descriptor of `group`, checking its checksum.
    pub fn read_group_desc(&self, group: u32) -> (r: SysResult<Ext4GroupDesc>)
        requires
            self.wf(),
        ensures
            match r {
                Ok(gd) => gd_read_result(*self, group as int) matches Ok(raw) && gd.wf() && gd.raw_len == self.desc_size
                    && gd.raw@.subrange(0, self.desc_size as int) == raw && gd_fields(gd, raw, self.desc_size as int)
                    && gd.checksum == le16(raw, GD_CHECKSUM_OFF as int),
                Err(e) => gd_read_result(*self, group as int) == Err::<Seq<u8>, Errno>(e),
            },
    {
        let (gdt_pblk, off) = self.group_desc_location(group)?;
        let block = self.read_fs_block(gdt_pblk)?;
        let desc_size = self.desc_size as usize;
        let end = off + desc_size;
        let raw = copy_range(block.as_slice(), off, end);
        let r = self.parse_group_desc(group, raw.as_slice());
        proof {
            if gd_size_ok(self.desc_size as int) {
                assert(gd_bytes(*self, group as int) == Ok::<Seq<u8>, Errno>(raw@));
            } else {
                assert(gd_bytes(*self, group as int) == Err::<Seq<u8>, Errno>(Errno::EIO));
            }
        }
        r
    }

    /// Parses descriptor bytes and checks their checksum.
    pub fn parse_group_desc(&self, group: u32, raw: &[u8]) -> (r: SysResult<Ext4GroupDesc>)
        requires
            self.wf(),
        ensures
            match r {
                Ok(gd) => raw@.len() == self.desc_size && gd_size_ok(self.desc_size as int) && gd.wf() && gd.raw_len == self.desc_size && gd.raw@.subrange(
                    0,
                    self.desc_size as int,
                ) == raw@ && gd_fields(gd, raw@, self.desc_size as int) && gd.checksum == le16(raw@, GD_CHECKSUM_OFF as int)
                    && !(gd_checksummed(*self) && le16(raw@, GD_CHECKSUM_OFF as int) != gd_checksum(*self, group, raw@) as int),
                Err(e) => (raw@.len() != self.desc_size && e == Errno::EINVAL) || (raw@.len() == self.desc_size
                    && !gd_size_ok(self.desc_size as int) && e == Errno::EIO) || (raw@.len() == self.desc_size && gd_size_ok(self.desc_size as int)
                    && gd_checksummed(*self) && le16(raw@, GD_CHECKSUM_OFF as int) != gd_checksum(*self, group, raw@) as int
                    && e == Errno::EIO),
            },
    {
        if raw.len() != self.desc_size as usize {
            return Err(Errno::EINVAL);
        }
        let wide = self.desc_size > 32;
        let full = self.desc_size >= 64;
        if wide && raw.len() < 0x34 {
            return Err(Errno::EIO);
        }
        let block_bitmap_lo = read_u32(raw, GD_BLOCK_BITMAP_LO_OFF) as u64;
        let inode_bitmap_lo = read_u32(raw, GD_INODE_BITMAP_LO_OFF) as u64;
        let inode_table_lo = read_u32(raw, GD_INODE_TABLE_LO_OFF) as u64;
        let block_bitmap_hi: u64 = if wide { read_u32(raw, GD_BLOCK_BITMAP_HI_OFF) as u64 } else { 0 };
        let inode_bitmap_hi: u64 = if wide { read_u32(raw, GD_INODE_BITMAP_HI_OFF) as u64 } else { 0 };
        let inode_table_hi: u64 = if wide { read_u32(raw, GD_INODE_TABLE_HI_OFF) as u64 } else { 0 };
        let free_blocks_lo = read_u16(raw, GD_FREE_BLOCKS_LO_OFF) as u32;
        let free_inodes_lo = read_u16(raw, GD_FREE_INODES_LO_OFF) as u32;
        let used_dirs_lo = read_u16(raw, GD_USED_DIRS_LO_OFF) as u32;
        let itable_unused_lo = read_u16(raw, GD_ITABLE_UNUSED_LO_OFF) as u32;
        let free_blocks_hi: u32 = if wide { read_u16(raw, GD_FREE_BLOCKS_HI_OFF) as u32 } else { 0 };
        let free_inodes_hi: u32 = if wide { read_u16(raw, GD_FREE_INODES_HI_OFF) as u32 } else { 0 };
        let used_dirs_hi: u32 = if wide { read_u16(raw, GD_USED_DIRS_HI_OFF) as u32 } else { 0 };
        let itable_unused_hi: u32 = if wide { read_u16(raw, GD_ITABLE_UNUSED_HI_OFF) as u32 } else { 0 };
        let bb_csum_lo = read_u16(raw, GD_BLOCK_BITMAP_CSUM_LO_OFF) as u32;
        let ib_csum_lo = read_u16(raw, GD_INODE_BITMAP_CSUM_LO_OFF) as u32;
        let bb_csum_hi: u32 = if full { read_u16(raw, GD_BLOCK_BITMAP_CSUM_HI_OFF) as u32 } else { 0 };
        let ib_csum_hi: u32 = if full { read_u16(raw, GD_INODE_BITMAP_CSUM_HI_OFF) as u32 } else { 0 };
        let mut gd_raw: Vec<u8> = vec![0u8; EXT4_MAX_DESC_SIZE];
        copy_into(&mut gd_raw, 0, raw);
        proof {
            assert(gd_raw@.subrange(0, raw@.len() as int) =~= raw@);
        }
        let gd = Ext4GroupDesc {
            block_bitmap: block_bitmap_hi * 0x1_0000_0000 + block_bitmap_lo,
            inode_bitmap: inode_bitmap_hi * 0x1_0000_0000 + inode_bitmap_lo,
            inode_table_first_block: inode_table_hi * 0x1_0000_0000 + inode_table_lo,
            free_blocks_count: free_blocks_hi * 0x10000 + free_blocks_lo,
            free_inodes_count: free_inodes_hi * 0x10000 + free_inodes_lo,
            used_dirs_count: used_dirs_hi * 0x10000 + used_dirs_lo,
            flags: read_u16(raw, GD_FLAGS_OFF),
            itable_unused: itable_unused_hi * 0x10000 + itable_unused_lo,
            block_bitmap_csum: bb_csum_hi * 0x10000 + bb_csum_lo,
            inode_bitmap_csum: ib_csum_hi * 0x10000 + ib_csum_lo,
            checksum: read_u16(raw, GD_CHECKSUM_OFF),
            raw: gd_raw,
            raw_len: self.desc_size as u8,
        };
        self.verify_group_desc_checksum(group, raw)?;
        Ok(gd)
    }

    /// The checksum of descriptor bytes of `group`: CRC-32C with metadata checksums, CRC-16 with
    /// `gdt_csum`, else zero.
    pub fn compute_group_desc_checksum(&self, group: u32, raw: &[u8]) -> (r: SysResult<u16>)
        requires
            self.wf(),
        ensures
            match r {
                Ok(v) => raw@.len() == self.desc_size && v == gd_checksum(*self, group, raw@),
                Err(e) => raw@.len() != self.desc_size && e == Errno::EINVAL,
            },
    {
        if raw.len() != self.desc_size as usize {
            return Err(Errno::EINVAL);
        }
        let off = GD_CHECKSUM_OFF;
        let group_le = u32_to_le_bytes(group);
        let head = vstd::slice::slice_subrange(raw, 0, off);
        if self.metadata_csum {
            let mut crc = self.checksum_seed;
            crc = crc32c_update(crc, group_le.as_slice());
            crc = crc32c_update(crc, head);
            let zeros: [u8; 2] = [0u8, 0u8];
            let zs = zeros.as_slice();
            proof { assert(zs@ =~= seq![0u8, 0u8]); }
            crc = crc32c_update(crc, zs);
            if raw.len() > off + 2 {
                let tail = vstd::slice::slice_subrange(raw, off + 2, raw.len());
                crc = crc32c_update(crc, tail);
            }
            return Ok((crc % 0x10000) as u16);
        }
        if flags_contain(self.feature_ro_compat, RO_COMPAT_GDT_CSUM) {
            let mut crc = crc16_update(0xFFFF, self.uuid.as_slice());
            crc = crc16_update(crc, group_le.as_slice());
            crc = crc16_update(crc, head);
            if raw.len() > off + 2 && flags_contain(self.feature_incompat, INCOMPAT_BIT64) {
                let tail = vstd::slice::slice_subrange(raw, off + 2, raw.len());
                crc = crc16_update(crc, tail);
            }
            return Ok(crc);
        }
        Ok(0)
    }

    /// Accepts descriptor bytes whose stored checksum matches; `EIO` otherwise.
    pub fn verify_group_desc_checksum(&self, group: u32, raw: &[u8]) -> (r: SysResult<()>)
        requires
            self.wf(),
            raw@.len() == self.desc_size,
        ensures
            r is Ok <==> !(gd_checksummed(*self) && le16(raw@, GD_CHECKSUM_OFF as int) != gd_checksum(*self, group, raw@) as int),
            r matches Err(e) ==> e == Errno::EIO,
    {
        if !self.metadata_csum && !flags_contain(self.feature_ro_compat, RO_COMPAT_GDT_CSUM) {
            return Ok(());
        }
        let stored = read_u16(raw, GD_CHECKSUM_OFF);
        let calc = self.compute_group_desc_checksum(group, raw)?;
        if stored != calc {
            return Err(Errno::EIO);
        }
        Ok(())
    }

    /// Encodes `gd`, recomputes its checksum and stores it in its slot of the descriptor table.
    #[verifier::spinoff_prover]
    #[verifier::rlimit(50)]
    pub fn write_group_desc(&mut self, group: u32, gd: &mut Ext4GroupDesc) -> (r: SysResult<()>)
        requires
            old(self).wf(),
            old(gd).wf(),
        ensures
            final(self).unchanged_but_dev(*old(self)),
            final(gd).wf(),
            final(gd).raw_len == old(gd).raw_len,
            r is Ok ==> gd_encodes(*final(gd), final(gd).raw@.subrange(0, old(self).desc_size as int), old(self).desc_size as int),
            gd_same_fields_but_csum(*final(gd), *old(gd)),
            r is Ok ==> final(gd).checksum == le16(final(gd).raw@, GD_CHECKSUM_OFF as int),
            r is Ok ==> gd_read_result(*final(self), group as int)
                == Ok::<Seq<u8>, Errno>(final(gd).raw@.subrange(0, old(self).desc_size as int)),
            r is Ok ==> gd_stored(*old(self), *final(self), group as int, final(gd).raw@.subrange(0, old(self).desc_size as int)),
            r is Ok ==> only_blocks_changed(*old(self), old(self).dev@, final(self).dev@,
                set![gd_location(*old(self), group as int).0 as int]),
            match r {
                Ok(_) => true,
                Err(e) => final(self).dev@ == old(self).dev@ && (
                    (old(gd).raw_len != old(self).desc_size && e == Errno::EINVAL)
                    || (!gd_size_ok(old(self).desc_size as int) && e == Errno::EIO)
                    || (group >= old(self).groups_count && e == Errno::EINVAL)
                    || block_read(*old(self), gd_location(*old(self), group as int).0 as int) == Err::<Seq<u8>, Errno>(e)
                    || (old(self).dev.spec_read_only() && e == Errno::EIO)),
            },
    {
        self.encode_group_desc(gd)?;
        let ds = self.desc_size as usize;
        let ghost enc = gd.raw@;
        let head = copy_range(gd.raw.as_slice(), 0, ds);
        let checksum = self.compute_group_desc_checksum(group, head.as_slice())?;
        put16_field(&mut gd.raw, GD_CHECKSUM_OFF, checksum);
        gd.checksum = checksum;
        proof {
            lemma_gd_checksum_ignores_field(*self, group, enc.subrange(0, ds as int), checksum as int);
            assert(put16(enc.subrange(0, ds as int), GD_CHECKSUM_OFF as int, checksum as int) =~= gd.raw@.subrange(0, ds as int));
        }
        let (gdt_pblk, off) = self.group_desc_location(group)?;
        let mut block = self.read_fs_block(gdt_pblk)?;
        let ghost old_block = block@;
        let head2 = copy_range(gd.raw.as_slice(), 0, ds);
        copy_into(&mut block, off, head2.as_slice());
        let ghost pre = *self;
        let r = self.write_fs_block(gdt_pblk, block.as_slice());
        proof {
            if r is Err {
                assert(block@.len() == pre.block_size);
                super::io::lemma_div_self(pre.block_size as int);
                assert(block_read(pre, gdt_pblk as int) is Ok);
                assert(pre.dev.spec_read_only());
            }
            if r is Ok {
                lemma_store_frame(pre, pre.dev@, gdt_pblk as int, block@);
                lemma_block_read_after_store(pre, *self, gdt_pblk as int, block@);
                assert(block@.subrange(off as int, off + ds) =~= head2@);
                let raw = gd.raw@.subrange(0, ds as int);
                assert(head2@ == raw);
                assert(block@ == splice(old_block, off as int, raw));
                assert(gd_encodes(*gd, raw, ds as int));
                assert(gd_read_result(*self, group as int) == Ok::<Seq<u8>, Errno>(raw));
            }
        }
        r
    }

    /// Writes the fields of `gd` into its raw bytes.
    #[verifier::rlimit(40)]
    #[verifier::spinoff_prover]
    pub fn encode_group_desc(&self, gd: &mut Ext4GroupDesc) -> (r: SysResult<()>)
        requires
            self.wf(),
            old(gd).wf(),
        ensures
            final(gd).wf(),
            final(gd).raw_len == old(gd).raw_len,
            r is Ok <==> old(gd).raw_len == self.desc_size && gd_size_ok(self.desc_size as int),
            r matches Err(e) ==> ((old(gd).raw_len != self.desc_size && e == Errno::EINVAL) || (old(gd).raw_len == self.desc_size
                && !gd_size_ok(self.desc_size as int) && e == Errno::EIO)) && *final(gd) == *old(gd),
            r is Ok ==> gd_encodes(*final(gd), final(gd).raw@, self.desc_size as int) && gd_same_fields(*final(gd), *old(gd))
                && le16(final(gd).raw@, GD_CHECKSUM_OFF as int) == le16(old(gd).raw@, GD_CHECKSUM_OFF as int)
                && final(gd).raw@.subrange(self.desc_size as int, EXT4_MAX_DESC_SIZE as int) == old(gd).raw@.subrange(self.desc_size as int, EXT4_MAX_DESC_SIZE as int),
    {
        if gd.raw_len as usize != self.desc_size as usize {
            return Err(Errno::EINVAL);
        }
        let wide = self.desc_size > 32;
        if wide && self.desc_size < 0x34 {
            return Err(Errno::EIO);
        }
        let ghost r0 = gd.raw@;
        put32_field(&mut gd.raw, GD_BLOCK_BITMAP_LO_OFF, (gd.block_bitmap % 0x1_0000_0000) as u32);
        put32_field(&mut gd.raw, GD_INODE_BITMAP_LO_OFF, (gd.inode_bitmap % 0x1_0000_0000) as u32);
        put32_field(&mut gd.raw, GD_INODE_TABLE_LO_OFF, (gd.inode_table_first_block % 0x1_0000_0000) as u32);
        if wide {
            put32_field(&mut gd.raw, GD_BLOCK_BITMAP_HI_OFF, (gd.block_bitmap / 0x1_0000_0000) as u32);
            put32_field(&mut gd.raw, GD_INODE_BITMAP_HI_OFF, (gd.inode_bitmap / 0x1_0000_0000) as u32);
            put32_field(&mut gd.raw, GD_INODE_TABLE_HI_OFF, (gd.inode_table_first_block / 0x1_0000_0000) as u32);
        }
        put16_field(&mut gd.raw, GD_FREE_BLOCKS_LO_OFF, (gd.free_blocks_count % 0x10000) as u16);
        put16_field(&mut gd.raw, GD_FREE_INODES_LO_OFF, (gd.free_inodes_count % 0x10000) as u16);
        put16_field(&mut gd.raw, GD_USED_DIRS_LO_OFF, (gd.used_dirs_count % 0x10000) as u16);
        put16_field(&mut gd.raw, GD_FLAGS_OFF, gd.flags);
        put16_field(&mut gd.raw, GD_ITABLE_UNUSED_LO_OFF, (gd.itable_unused % 0x10000) as u16);
        if wide {
            put16_field(&mut gd.raw, GD_FREE_BLOCKS_HI_OFF, (gd.free_blocks_count / 0x10000) as u16);
            put16_field(&mut gd.raw, GD_FREE_INODES_HI_OFF, (gd.free_inodes_count / 0x10000) as u16);
            put16_field(&mut gd.raw, GD_USED_DIRS_HI_OFF, (gd.used_dirs_count / 0x10000) as u16);
            put16_field(&mut gd.raw, GD_ITABLE_UNUSED_HI_OFF, (gd.itable_unused / 0x10000) as u16);
        }
        let bb = gd.block_bitmap_csum;
        let ib = gd.inode_bitmap_csum;
        self.set_group_block_bitmap_checksum(gd, bb);
        self.set_group_inode_bitmap_checksum(gd, ib);
        proof {
            assert(gd.raw@.subrange(self.desc_size as int, EXT4_MAX_DESC_SIZE as int) =~= r0.subrange(self.desc_size as int, EXT4_MAX_DESC_SIZE as int));
        }
        Ok(())
    }

    /// Stores the block bitmap checksum in `gd`, the high half only in 64-byte descriptors.
    pub fn set_group_block_bitmap_checksum(&self, gd: &mut Ext4GroupDesc, csum: u32)
        requires
            self.wf(),
            old(gd).wf(),
        ensures
            final(gd).wf(),
            final(gd).raw_len == old(gd).raw_len,
            gd_same_fields_but_bb(*final(gd), *old(gd)),
            final(gd).block_bitmap_csum == csum,
            gd_csum16(final(gd).raw@, self.desc_size as int, GD_BLOCK_BITMAP_CSUM_LO_OFF as int, GD_BLOCK_BITMAP_CSUM_HI_OFF as int)
                == keep(csum as int, self.desc_size as int, 0x10000, 63),
            final(gd).raw@ == (if self.desc_size >= 64 {
                put16(put16(old(gd).raw@, GD_BLOCK_BITMAP_CSUM_LO_OFF as int, csum as int % 0x10000), GD_BLOCK_BITMAP_CSUM_HI_OFF as int, (csum as int / 0x10000) % 0x10000)
            } else {
                put16(old(gd).raw@, GD_BLOCK_BITMAP_CSUM_LO_OFF as int, csum as int % 0x10000)
            }),
    {
        put16_field(&mut gd.raw, GD_BLOCK_BITMAP_CSUM_LO_OFF, (csum % 0x10000) as u16);
        if self.desc_size >= 64 {
            put16_field(&mut gd.raw, GD_BLOCK_BITMAP_CSUM_HI_OFF, (csum / 0x10000) as u16);
        }
        gd.block_bitmap_csum = csum;
        proof { lemma_u32_word(csum); }
    }

    /// Stores the inode bitmap checksum in `gd`, the high half only in 64-byte descriptors.
    pub fn set_group_inode_bitmap_checksum(&self, gd: &mut Ext4GroupDesc, csum: u32)
        requires
            self.wf(),
            old(gd).wf(),
        ensures
            final(gd).wf(),
            final(gd).raw_len == old(gd).raw_len,
            gd_same_fields_but_ib(*final(gd), *old(gd)),
            final(gd).inode_bitmap_csum == csum,
            gd_csum16(final(gd).raw@, self.desc_size as int, GD_INODE_BITMAP_CSUM_LO_OFF as int, GD_INODE_BITMAP_CSUM_HI_OFF as int)
                == keep(csum as int, self.desc_size as int, 0x10000, 63),
            final(gd).raw@ == (if self.desc_size >= 64 {
                put16(put16(old(gd).raw@, GD_INODE_BITMAP_CSUM_LO_OFF as int, csum as int % 0x10000), GD_INODE_BITMAP_CSUM_HI_OFF as int, (csum as int / 0x10000) % 0x10000)
            } else {
                put16(old(gd).raw@, GD_INODE_BITMAP_CSUM_LO_OFF as int, csum as int % 0x10000)
            }),
    {
        put16_field(&mut gd.raw, GD_INODE_BITMAP_CSUM_LO_OFF, (csum % 0x10000) as u16);
        if self.desc_size >= 64 {
            put16_field(&mut gd.raw, GD_INODE_BITMAP_CSUM_HI_OFF, (csum / 0x10000) as u16);
        }
        gd.inode_bitmap_csum = csum;
        proof { lemma_u32_word(csum); }
    }
}

/// `a` and `b` hold the same field values.
pub open spec fn gd_same_fields(a: Ext4GroupDesc, b: Ext4GroupDesc) -> bool {
    &&& a.block_bitmap == b.block_bitmap
    &&& a.inode_bitmap == b.inode_bitmap
    &&& a.inode_table_first_block == b.inode_table_first_block
    &&& a.free_blocks_count == b.free_blocks_count
    &&& a.free_inodes_count == b.free_inodes_count
    &&& a.used_dirs_count == b.used_dirs_count
    &&& a.flags == b.flags
    &&& a.itable_unused == b.itable_unused
    &&& a.block_bitmap_csum == b.block_bitmap_csum
    &&& a.inode_bitmap_csum == b.inode_bitmap_csum
    &&& a.checksum == b.checksum
}

/// `a` and `b` hold the same field values but perhaps the descriptor checksum.
pub open spec fn gd_same_fields_but_csum(a: Ext4GroupDesc, b: Ext4GroupDesc) -> bool {
    &&& a.block_bitmap == b.block_bitmap
    &&& a.inode_bitmap == b.inode_bitmap
    &&& a.inode_table_first_block == b.inode_table_first_block
    &&& a.free_blocks_count == b.free_blocks_count
    &&& a.free_inodes_count == b.free_inodes_count
    &&& a.used_dirs_count == b.used_dirs_count
    &&& a.flags == b.flags
    &&& a.itable_unused == b.itable_unused
    &&& a.block_bitmap_csum == b.block_bitmap_csum
    &&& a.inode_bitmap_csum == b.inode_bitmap_csum
}

/// `a` and `b` hold the same field values but perhaps the block bitmap checksum.
pub open spec fn gd_same_fields_but_bb(a: Ext4GroupDesc, b: Ext4GroupDesc) -> bool {
    &&& a.block_bitmap == b.block_bitmap
    &&& a.inode_bitmap == b.inode_bitmap
    &&& a.inode_table_first_block == b.inode_table_first_block
    &&& a.free_blocks_count == b.free_blocks_count
    &&& a.free_inodes_count == b.free_inodes_count
    &&& a.used_dirs_count == b.used_dirs_count
    &&& a.flags == b.flags
    &&& a.itable_unused == b.itable_unused
    &&& a.inode_bitmap_csum == b.inode_bitmap_csum
    &&& a.checksum == b.checksum
}

/// `a` and `b` hold the same field values but perhaps the inode bitmap checksum.
pub open spec fn gd_same_fields_but_ib(a: Ext4GroupDesc, b: Ext4GroupDesc) -> bool {
    &&& a.block_bitmap == b.block_bitmap
    &&& a.inode_bitmap == b.inode_bitmap
    &&& a.inode_table_first_block == b.inode_table_first_block
    &&& a.free_blocks_count == b.free_blocks_count
    &&& a.free_inodes_count == b.free_inodes_count
    &&& a.used_dirs_count == b.used_dirs_count
    &&& a.flags == b.flags
    &&& a.itable_unused == b.itable_unused
    &&& a.block_bitmap_csum == b.block_bitmap_csum
    &&& a.checksum == b.checksum
}

/// Stores a 16-bit field in a descriptor buffer.
fn put16_field(raw: &mut Vec<u8>, off: usize, v: u16)
    requires
        off + 2 <= old(raw)@.len(),
    ensures
        final(raw)@ == put16(old(raw)@, off as int, v as int),
        final(raw)@.len() == old(raw)@.len(),
        le16(final(raw)@, off as int) == v,
        forall|i: int| 0 <= i < old(raw)@.len() && (i < off || i >= off + 2) ==> #[trigger] final(raw)@[i] == old(raw)@[i],
{
    proof { lemma_put16_get(old(raw)@, off as int, v as int); }
    write_u16(raw, off, v);
}

/// Stores a 32-bit field in a descriptor buffer.
fn put32_field(raw: &mut Vec<u8>, off: usize, v: u32)
    requires
        off + 4 <= old(raw)@.len(),
    ensures
        final(raw)@ == put32(old(raw)@, off as int, v as int),
        final(raw)@.len() == old(raw)@.len(),
        le32(final(raw)@, off as int) == v,
        forall|i: int| 0 <= i < old(raw)@.len() && (i < off || i >= off + 4) ==> #[trigger] final(raw)@[i] == old(raw)@[i],
{
    proof { lemma_put32_get(old(raw)@, off as int, v as int); }
    write_u32(raw, off, v);
}

} // verus!
