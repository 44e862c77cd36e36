//! Reading, checking and writing block and inode bitmaps.
use vstd::prelude::*;
use crate::bytes::{le16, copy_range};
use crate::crc::{crc32c, crc32c_update};
use crate::errno::{Errno, SysResult};
use super::ctx::Context;
use super::defs::{Ext4GroupDesc, Ext4BitmapBlock, EXT4_BG_BLOCK_UNINIT, EXT4_BG_INODE_UNINIT, GD_FLAGS_OFF,
    GD_INODE_BITMAP_LO_OFF, GD_INODE_BITMAP_HI_OFF, GD_INODE_BITMAP_CSUM_LO_OFF, GD_INODE_BITMAP_CSUM_HI_OFF,
    GD_BLOCK_BITMAP_LO_OFF, GD_BLOCK_BITMAP_HI_OFF, GD_BLOCK_BITMAP_CSUM_LO_OFF, GD_BLOCK_BITMAP_CSUM_HI_OFF};
use super::io::{block_read, blocks_write, wrote, gd_location, only_blocks_changed, lemma_store_frame, lemma_frame_block_read,
    lemma_frame_trans, lemma_div_self};
use super::group_desc::{lemma_block_read_after_store, gd_size_ok, gd_read_result, gd_wide32, gd_csum16, gd_fields, bitmap_csum_len, spec_bitmap_checksum};

verus! {

/// The number of bits a bitmap of the given kind covers.
pub open spec fn bitmap_bits(c: Context, is_block: bool) -> int {
    (if is_block { c.blocks_per_group } else { c.inodes_per_group }) as int
}

/// What computing a bitmap checksum gives: the checksum, or the error.
pub open spec fn bitmap_checksum_result(c: Context, bitmap: Seq<u8>, is_block: bool) -> Result<u32, Errno> {
    if bitmap_bits(c, is_block) + 7 > usize::MAX {
        Err(Errno::EINVAL)
    } else if bitmap_csum_len(c, is_block) > bitmap.len() {
        Err(Errno::EIO)
    } else {
        Ok(spec_bitmap_checksum(c, bitmap, is_block))
    }
}

/// Whether a stored bitmap checksum matches `bitmap`; small descriptors keep only its low half.
pub open spec fn bitmap_csum_check(c: Context, stored: u32, bitmap: Seq<u8>, is_block: bool) -> Result<(), Errno> {
    match bitmap_checksum_result(c, bitmap, is_block) {
        Ok(calc) => if (if c.desc_size < 64 {
            stored as int % 0x10000 != calc as int % 0x10000
        } else {
            stored != calc
        }) {
            Err(Errno::EIO)
        } else {
            Ok(())
        },
        Err(e) => Err(e),
    }
}

/// What reading a bitmap at `pblk` gives, checking it against `stored` unless `uninit` is set.
pub open spec fn bitmap_read(c: Context, pblk: u64, uninit: bool, stored: u32, is_block: bool) -> Result<Seq<u8>, Errno> {
    match block_read(c, pblk as int) {
        Ok(raw) => if c.metadata_csum && !uninit {
            match bitmap_csum_check(c, stored, raw, is_block) {
                Ok(_) => Ok(raw),
                Err(e) => Err(e),
            }
        } else {
            Ok(raw)
        },
        Err(e) => Err(e),
    }
}

/// What reading the block bitmap of `group` gives: its block and bytes, or the error.
pub open spec fn block_bitmap_read(c: Context, group: int) -> Result<(u64, Seq<u8>), Errno> {
    let ds = c.desc_size as int;
    match gd_read_result(c, group) {
        Ok(raw) => {
            let pblk = gd_wide32(raw, ds, GD_BLOCK_BITMAP_LO_OFF as int, GD_BLOCK_BITMAP_HI_OFF as int) as u64;
            let uninit = (le16(raw, GD_FLAGS_OFF as int) as u16) & EXT4_BG_BLOCK_UNINIT != 0;
            let stored = gd_csum16(raw, ds, GD_BLOCK_BITMAP_CSUM_LO_OFF as int, GD_BLOCK_BITMAP_CSUM_HI_OFF as int) as u32;
            match bitmap_read(c, pblk, uninit, stored, true) {
                Ok(b) => Ok((pblk, b)),
                Err(e) => Err(e),
            }
        },
        Err(e) => Err(e),
    }
}

/// What reading the inode bitmap of `group` gives: its bytes, or the error.
pub open spec fn inode_bitmap_read(c: Context, group: int) -> Result<(u64, Seq<u8>), Errno> {
    let ds = c.desc_size as int;
    match gd_read_result(c, group) {
        Ok(raw) => {
            let pblk = gd_wide32(raw, ds, GD_INODE_BITMAP_LO_OFF as int, GD_INODE_BITMAP_HI_OFF as int) as u64;
            let uninit = (le16(raw, GD_FLAGS_OFF as int) as u16) & EXT4_BG_INODE_UNINIT != 0;
            let stored = gd_csum16(raw, ds, GD_INODE_BITMAP_CSUM_LO_OFF as int, GD_INODE_BITMAP_CSUM_HI_OFF as int) as u32;
            match bitmap_read(c, pblk, uninit, stored, false) {
                Ok(b) => Ok((pblk, b)),
                Err(e) => Err(e),
            }
        },
        Err(e) => Err(e),
    }
}

proof fn lemma_low_half(x: u32)
    ensures
        x & 0xFFFF == x % 0x10000,
{
    assert(x & 0xFFFF == x % 0x10000) by (bit_vector);
}

impl Context {
    /// The checksum of the first `(bits + 7) / 8` bytes of a bitmap.
    pub fn bitmap_checksum(&self, bitmap: &[u8], is_block_bitmap: bool) -> (r: SysResult<u32>)
        requires
            self.wf(),
        ensures
            r == bitmap_checksum_result(*self, bitmap@, is_block_bitmap),
    {
        let bits = if is_block_bitmap { self.blocks_per_group } else { self.inodes_per_group };
        let plus = match (bits as usize).checked_add(7) {
            Some(v) => v,
            None => return Err(Errno::EINVAL),
        };
        let checksum_len = plus / 8;
        if checksum_len > bitmap.len() {
            return Err(Errno::EIO);
        }
        let head = copy_range(bitmap, 0, checksum_len);
        Ok(crc32c_update(self.checksum_seed, head.as_slice()))
    }

    /// Checks a bitmap against the checksum its descriptor stores.
    pub fn verify_bitmap_checksum(&self, group: u32, gd: &Ext4GroupDesc, bitmap: &[u8], is_block_bitmap: bool) -> (r: SysResult<()>)
        requires
            self.wf(),
        ensures
            r == bitmap_csum_check(*self, if is_block_bitmap { gd.block_bitmap_csum } else { gd.inode_bitmap_csum },
                bitmap@, is_block_bitmap),
    {
        let stored = if is_block_bitmap { gd.block_bitmap_csum } else { gd.inode_bitmap_csum };
        let calc = self.bitmap_checksum(bitmap, is_block_bitmap)?;
        if self.desc_size < 64 {
            proof {
                lemma_low_half(stored);
                lemma_low_half(calc);
            }
            if (stored & 0xFFFF) != (calc & 0xFFFF) {
                return Err(Errno::EIO);
            }
        } else if stored != calc {
            return Err(Errno::EIO);
        }
        Ok(())
    }

    /// Reads the block bitmap that `gd` points to, checking it unless the group is uninitialised.
    pub fn read_block_bitmap_with_group_desc(&self, group: u32, gd: &Ext4GroupDesc) -> (r: SysResult<Ext4BitmapBlock>)
        requires
            self.wf(),
        ensures
            match r {
                Ok(bm) => bm.pblk == gd.block_bitmap && bitmap_read(*self, gd.block_bitmap,
                    gd.flags & EXT4_BG_BLOCK_UNINIT != 0, gd.block_bitmap_csum, true) == Ok::<Seq<u8>, Errno>(bm.raw@),
                Err(e) => bitmap_read(*self, gd.block_bitmap, gd.flags & EXT4_BG_BLOCK_UNINIT != 0,
                    gd.block_bitmap_csum, true) == Err::<Seq<u8>, Errno>(e),
            },
    {
        let raw = self.read_fs_block(gd.block_bitmap)?;
        if self.metadata_csum && (gd.flags & EXT4_BG_BLOCK_UNINIT) == 0 {
            self.verify_bitmap_checksum(group, gd, raw.as_slice(), true)?;
        }
        Ok(Ext4BitmapBlock { pblk: gd.block_bitmap, raw })
    }

    /// Reads the inode bitmap of `group`, checking it unless the group's inodes are uninitialised.
    pub fn read_inode_bitmap(&self, group: u32) -> (r: SysResult<Ext4BitmapBlock>)
        requires
            self.wf(),
        ensures
            match r {
                Ok(bm) => inode_bitmap_read(*self, group as int) == Ok::<(u64, Seq<u8>), Errno>((bm.pblk, bm.raw@)),
                Err(e) => inode_bitmap_read(*self, group as int) == Err::<(u64, Seq<u8>), Errno>(e),
            },
    {
        let gd = self.read_group_desc(group)?;
        let raw = self.read_fs_block(gd.inode_bitmap)?;
        if self.metadata_csum && (gd.flags & EXT4_BG_INODE_UNINIT) == 0 {
            self.verify_bitmap_checksum(group, &gd, raw.as_slice(), false)?;
        }
        Ok(Ext4BitmapBlock { pblk: gd.inode_bitmap, raw })
    }

    /// Writes a block bitmap, marks its group's blocks initialised and, with metadata checksums,
    /// stores the bitmap checksum in the descriptor and writes the descriptor back.
    pub fn write_block_bitmap(&mut self, group: u32, gd: &mut Ext4GroupDesc, bm: &Ext4BitmapBlock) -> (r: SysResult<()>)
        requires
            old(self).wf(),
            old(gd).wf(),
        ensures
            final(self).unchanged_but_dev(*old(self)),
            final(gd).wf(),
            final(gd).raw_len == old(gd).raw_len,
            bm.raw@.len() != old(self).block_size ==> r == Err::<(), Errno>(Errno::EINVAL)
                && final(self).dev@ == old(self).dev@ && *final(gd) == *old(gd),
            bm.raw@.len() == old(self).block_size ==> final(gd).flags == old(gd).flags & !EXT4_BG_BLOCK_UNINIT,
            r is Ok ==> blocks_write(*old(self), bm.pblk as int, bm.raw@) is Ok,
            r is Ok && !old(self).metadata_csum ==> blocks_write(*old(self), bm.pblk as int, bm.raw@)
                == Ok::<Seq<u8>, Errno>(final(self).dev@),
            r is Ok && old(self).metadata_csum ==> final(gd).block_bitmap_csum == spec_bitmap_checksum(*old(self), bm.raw@, true)
                && gd_read_result(*final(self), group as int) == Ok::<Seq<u8>, Errno>(final(gd).raw@.subrange(0, old(self).desc_size as int)),
            r is Ok ==> only_blocks_changed(*old(self), old(self).dev@, final(self).dev@,
                set![bm.pblk as int, gd_location(*old(self), group as int).0 as int]),
            r is Ok && bm.pblk != gd_location(*old(self), group as int).0 ==> block_read(*final(self), bm.pblk as int)
                == Ok::<Seq<u8>, Errno>(bm.raw@),
            final(gd).block_bitmap == old(gd).block_bitmap,
            final(gd).inode_bitmap == old(gd).inode_bitmap,
            final(gd).inode_table_first_block == old(gd).inode_table_first_block,
            final(gd).itable_unused == old(gd).itable_unused,
            final(gd).free_blocks_count == old(gd).free_blocks_count,
            final(gd).free_inodes_count == old(gd).free_inodes_count,
            final(gd).used_dirs_count == old(gd).used_dirs_count,
            bm.raw@.len() == old(self).block_size && blocks_write(*old(self), bm.pblk as int, bm.raw@) is Ok
                && (old(self).metadata_csum ==> bitmap_checksum_result(*old(self), bm.raw@, true) is Ok
                    && old(gd).raw_len == old(self).desc_size && gd_size_ok(old(self).desc_size as int)
                    && group < old(self).groups_count
                    && block_read(*old(self), gd_location(*old(self), group as int).0 as int) is Ok)
                ==> r is Ok,
    {
        if bm.raw.len() != self.block_size as usize {
            return Err(Errno::EINVAL);
        }
        gd.flags = gd.flags & !EXT4_BG_BLOCK_UNINIT;
        let ghost pre = *self;
        let ghost p = bm.pblk as int;
        let ghost gdb = gd_location(*self, group as int).0 as int;
        self.write_fs_block(bm.pblk, bm.raw.as_slice())?;
        proof {
            lemma_div_self(pre.block_size as int);
            lemma_store_frame(pre, pre.dev@, p, bm.raw@);
            lemma_block_read_after_store(pre, *self, p, bm.raw@);
        }
        let ghost mid = *self;
        if self.metadata_csum {
            let csum = self.bitmap_checksum(bm.raw.as_slice(), true)?;
            gd.block_bitmap_csum = csum;
            self.set_group_block_bitmap_checksum(gd, csum);
            self.write_group_desc(group, gd)?;
            proof {
                lemma_frame_trans(pre, pre.dev@, mid.dev@, self.dev@, set![p], set![gdb]);
                assert(set![p].union(set![gdb]) =~= set![p, gdb]);
                if p != gdb {
                    lemma_frame_block_read(mid, *self, p, set![gdb]);
                }
            }
        } else {
            proof {
                assert forall|i: int| 0 <= i < pre.dev@.len() && !set![p, gdb].contains(i / (pre.block_size as int)) implies
                    #[trigger] self.dev@[i] == pre.dev@[i] by {
                    assert(!set![p].contains(i / (pre.block_size as int)));
                }
            }
        }
        Ok(())
    }

    /// Writes an inode bitmap and, with metadata checksums, stores its checksum in the descriptor
    /// and writes the descriptor back.
    pub fn write_inode_bitmap(&mut self, group: u32, gd: &mut Ext4GroupDesc, bm: &Ext4BitmapBlock) -> (r: SysResult<()>)
        requires
            old(self).wf(),
            old(gd).wf(),
        ensures
            final(self).unchanged_but_dev(*old(self)),
            final(gd).wf(),
            final(gd).raw_len == old(gd).raw_len,
            bm.raw@.len() != old(self).block_size ==> r == Err::<(), Errno>(Errno::EINVAL)
                && final(self).dev@ == old(self).dev@ && *final(gd) == *old(gd),
            final(gd).flags == old(gd).flags,
            r is Ok ==> blocks_write(*old(self), bm.pblk as int, bm.raw@) is Ok,
            r is Ok && !old(self).metadata_csum ==> blocks_write(*old(self), bm.pblk as int, bm.raw@)
                == Ok::<Seq<u8>, Errno>(final(self).dev@),
            r is Ok && old(self).metadata_csum ==> final(gd).inode_bitmap_csum == spec_bitmap_checksum(*old(self), bm.raw@, false)
                && gd_read_result(*final(self), group as int) == Ok::<Seq<u8>, Errno>(final(gd).raw@.subrange(0, old(self).desc_size as int)),
            r is Ok ==> only_blocks_changed(*old(self), old(self).dev@, final(self).dev@,
                set![bm.pblk as int, gd_location(*old(self), group as int).0 as int]),
            r is Ok && bm.pblk != gd_location(*old(self), group as int).0 ==> block_read(*final(self), bm.pblk as int)
                == Ok::<Seq<u8>, Errno>(bm.raw@),
            final(gd).block_bitmap == old(gd).block_bitmap,
            final(gd).inode_bitmap == old(gd).inode_bitmap,
            final(gd).inode_table_first_block == old(gd).inode_table_first_block,
            final(gd).itable_unused == old(gd).itable_unused,
            final(gd).free_blocks_count == old(gd).free_blocks_count,
            final(gd).free_inodes_count == old(gd).free_inodes_count,
            final(gd).used_dirs_count == old(gd).used_dirs_count,
            bm.raw@.len() == old(self).block_size && blocks_write(*old(self), bm.pblk as int, bm.raw@) is Ok
                && (old(self).metadata_csum ==> bitmap_checksum_result(*old(self), bm.raw@, false) is Ok
                    && old(gd).raw_len == old(self).desc_size && gd_size_ok(old(self).desc_size as int)
                    && group < old(self).groups_count
                    && block_read(*old(self), gd_location(*old(self), group as int).0 as int) is Ok)
                ==> r is Ok,
    {
        if bm.raw.len() != self.block_size as usize {
            return Err(Errno::EINVAL);
        }
        let ghost pre = *self;
        let ghost p = bm.pblk as int;
        let ghost gdb = gd_location(*self, group as int).0 as int;
        self.write_fs_block(bm.pblk, bm.raw.as_slice())?;
        proof {
            lemma_div_self(pre.block_size as int);
            lemma_store_frame(pre, pre.dev@, p, bm.raw@);
            lemma_block_read_after_store(pre, *self, p, bm.raw@);
        }
        let ghost mid = *self;
        if self.metadata_csum {
            let csum = self.bitmap_checksum(bm.raw.as_slice(), false)?;
            gd.inode_bitmap_csum = csum;
            self.set_group_inode_bitmap_checksum(gd, csum);
            self.write_group_desc(group, gd)?;
            proof {
                lemma_frame_trans(pre, pre.dev@, mid.dev@, self.dev@, set![p], set![gdb]);
                assert(set![p].union(set![gdb]) =~= set![p, gdb]);
                if p != gdb {
                    lemma_frame_block_read(mid, *self, p, set![gdb]);
                }
            }
        } else {
            proof {
                assert forall|i: int| 0 <= i < pre.dev@.len() && !set![p, gdb].contains(i / (pre.block_size as int)) implies
                    #[trigger] self.dev@[i] == pre.dev@[i] by {
                    assert(!set![p].contains(i / (pre.block_size as int)));
                }
            }
        }
        Ok(())
    }
}

} // verus!
