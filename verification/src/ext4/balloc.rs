//! Allocation of blocks and inodes, the free counters, and fresh inode records.
use vstd::prelude::*;
use crate::bytes::{le16, le32, put16, put32, splice, fill_zero, write_u16, write_u32};
use crate::errno::{Errno, SysResult};
use super::ctx::Context;
use super::defs::{Ext4GroupDesc, Ext4BitmapBlock, Ext4Inode, ExtentLeaf, EXT4_BG_INODE_UNINIT, EXT4_EXTENT_MAGIC,
    EXTENT_HEADER_SIZE, EXTENT_ENTRY_SIZE, INODE_BLOCK_ARRAY_OFF, INODE_BLOCK_ARRAY_SIZE, INODE_FLAG_EXTENTS,
    ROOT_EXTENT_MAX, EXT4_SUPERBLOCK_OFFSET, EXT4_SUPERBLOCK_SIZE, SB_CHECKSUM_OFF, SB_FREE_BLOCKS_COUNT_LO_OFF,
    SB_FREE_BLOCKS_COUNT_HI_OFF, SB_FREE_INODES_COUNT_OFF, SB_MAGIC_OFF, EXT4_SUPER_MAGIC, GD_FREE_BLOCKS_LO_OFF, GD_FREE_BLOCKS_HI_OFF,
    GD_FREE_INODES_LO_OFF, GD_FREE_INODES_HI_OFF, GD_USED_DIRS_LO_OFF, GD_USED_DIRS_HI_OFF, GD_BLOCK_BITMAP_LO_OFF, GD_BLOCK_BITMAP_HI_OFF, GD_INODE_BITMAP_LO_OFF, GD_INODE_BITMAP_HI_OFF, GD_INODE_TABLE_LO_OFF, GD_INODE_TABLE_HI_OFF, GD_ITABLE_UNUSED_LO_OFF, GD_ITABLE_UNUSED_HI_OFF, GD_FLAGS_OFF, flags_contain, has_bits};
use super::io::{block_read, blocks_write, gd_location, only_blocks_changed, lemma_byte_in_block, lemma_store_frame,
    lemma_frame_block_read, lemma_frame_trans};
use super::bitmap::{test_bit, set_bit, clear_bit, bit_of};
use super::bitmap_io::{block_bitmap_read, inode_bitmap_read, bitmap_checksum_result};
use super::group_desc::{gd_read_result, gd_wide16, gd_wide32, keep};
use super::inode::{inode_location_result, inode_stored, inode_raw_read};
use super::superblock::{sb_bytes, sb_with_checksum, spec_free_blocks, sb_checksum_ok};
use super::extent_map::{leaves_merged, insert_extent_leaf, extent_data_blocks, validate_from, mapped, maps_to, pends_bounded,
    valid_extents, sum_len};

verus! {

pub const DEFAULT_EXTRA_ISIZE: u16 = 32;

/// Ceiling division.
pub open spec fn div_ceil(a: int, b: int) -> int {
    (a + b - 1) / b
}

/// Index blocks above `nodes` nodes of `per` entries until the root's four slots hold them.
pub open spec fn upper_levels(nodes: int, per: int) -> int
    decreases nodes,
{
    if nodes <= ROOT_EXTENT_MAX || per < 2 || nodes <= 0 {
        0
    } else {
        proof {
            lemma_div_ceil_shrinks(nodes, per);
        }
        div_ceil(nodes, per) + upper_levels(div_ceil(nodes, per), per)
    }
}

/// Counting index blocks never gives a negative number.
proof fn lemma_upper_nonneg(nodes: int, per: int)
    ensures
        upper_levels(nodes, per) >= 0,
    decreases nodes,
{
    if !(nodes <= ROOT_EXTENT_MAX || per < 2 || nodes <= 0) {
        lemma_div_ceil_shrinks(nodes, per);
        lemma_upper_nonneg(div_ceil(nodes, per), per);
    }
}

/// The number of extent-tree blocks outside the inode that `count` leaves need.
pub open spec fn external_blocks(count: int, per: int) -> int {
    if count <= ROOT_EXTENT_MAX { 0 } else { div_ceil(count, per) + upper_levels(div_ceil(count, per), per) }
}

proof fn lemma_sb_checksum_keeps(raw: Seq<u8>, off: int)
    requires
        raw.len() == EXT4_SUPERBLOCK_SIZE,
        0 <= off,
        off + 4 <= SB_CHECKSUM_OFF,
    ensures
        le32(sb_with_checksum(raw), off) == le32(raw, off),
        sb_with_checksum(raw).len() == raw.len(),
{
    let z = put32(raw, SB_CHECKSUM_OFF as int, 0);
    crate::bytes::lemma_put32_get(raw, SB_CHECKSUM_OFF as int, 0);
    let c = crate::crc::crc32c(crate::crc::CRC32C_INIT, z.subrange(0, SB_CHECKSUM_OFF as int));
    crate::bytes::lemma_put32_get(z, SB_CHECKSUM_OFF as int, c as int);
}

pub proof fn lemma_div_ceil_shrinks(n: int, per: int)
    requires
        n > 4,
        per >= 2,
    ensures
        0 < div_ceil(n, per) < n,
{
    assert(div_ceil(n, per) < n) by (nonlinear_arith)
        requires
            n > 4,
            per >= 2,
    ;
    assert(div_ceil(n, per) > 0) by (nonlinear_arith)
        requires
            n > 4,
            per >= 2,
    ;
}


impl Context {
    /// The first block of `group`.
    pub fn group_first_block(&self, group: u32) -> (r: SysResult<u64>)
        ensures
            r == Ok::<u64, Errno>((group as int * self.blocks_per_group as int + self.first_data_block) as u64),
    {
        assert(group as int * self.blocks_per_group as int <= 0xFFFF_FFFF * 0xFFFF_FFFF) by (nonlinear_arith)
            requires
                group <= 0xFFFF_FFFFu32,
                self.blocks_per_group <= 0xFFFF_FFFFu32,
        ;
        Ok(group as u64 * self.blocks_per_group as u64 + self.first_data_block as u64)
    }

    /// The group of block `pblk` and its bit in the group's block bitmap.
    pub fn block_group_bit(&self, pblk: u64) -> (r: SysResult<(u32, u32)>)
        requires
            self.wf(),
        ensures
            ({
                let rel = pblk - self.first_data_block;
                match r {
                    Ok((g, b)) => pblk >= self.first_data_block && g == rel / self.blocks_per_group as int
                        && b == rel % self.blocks_per_group as int && g < self.groups_count,
                    Err(e) => e == Errno::EINVAL && (pblk < self.first_data_block
                        || rel / self.blocks_per_group as int >= self.groups_count),
                }
            }),
    {
        let first = self.first_data_block as u64;
        if pblk < first {
            return Err(Errno::EINVAL);
        }
        let rel = pblk - first;
        let group = rel / self.blocks_per_group as u64;
        let bit = rel % self.blocks_per_group as u64;
        if group >= self.groups_count as u64 {
            return Err(Errno::EINVAL);
        }
        Ok((group as u32, bit as u32))
    }

    /// The extra inode size new inodes get: none for 128-byte inodes, else up to 32 bytes.
    pub fn default_extra_isize(&self) -> (r: u16)
        ensures
            r == (if self.inode_size <= 128 { 0 } else if self.inode_size - 128 < DEFAULT_EXTRA_ISIZE {
                self.inode_size - 128
            } else {
                DEFAULT_EXTRA_ISIZE as int
            }),
    {
        if self.inode_size <= 128 {
            0
        } else if self.inode_size - 128 < DEFAULT_EXTRA_ISIZE {
            self.inode_size - 128
        } else {
            DEFAULT_EXTRA_ISIZE
        }
    }

    /// Bytes a hashed-index block keeps for its checksum tail.
    pub fn htree_tail_size(&self) -> (r: usize)
        ensures
            r == (if self.metadata_csum { 8usize } else { 0usize }),
    {
        if self.metadata_csum { 8 } else { 0 }
    }

    /// How many entries an extent block holds.
    pub fn extent_block_max_entries(&self) -> (r: SysResult<u16>)
        requires
            self.wf(),
        ensures
            r == Ok::<u16, Errno>(((self.block_size - EXTENT_HEADER_SIZE) / EXTENT_ENTRY_SIZE as int) as u16),
            (self.block_size - EXTENT_HEADER_SIZE) / EXTENT_ENTRY_SIZE as int >= 84,
    {
        let usable = self.block_size as usize - EXTENT_HEADER_SIZE;
        let max = usable / EXTENT_ENTRY_SIZE;
        Ok(max as u16)
    }

    /// Marks inode `bit` of a group initialised: the unused-table count drops so that it covers
    /// the inode, and the group loses its uninitialised-inodes flag.
    pub fn mark_inode_initialized(&self, gd: &mut Ext4GroupDesc, bit: u32) -> (r: SysResult<()>)
        ensures
            ({
                let initialized = self.inodes_per_group - old(gd).itable_unused;
                match r {
                    Ok(_) => initialized >= 0 && bit < u32::MAX
                        && *final(gd) == (Ext4GroupDesc {
                            itable_unused: if bit + 1 > initialized { (self.inodes_per_group - (bit + 1)) as u32 } else { old(gd).itable_unused },
                            flags: old(gd).flags & !EXT4_BG_INODE_UNINIT,
                            ..*old(gd)
                        }),
                    Err(e) => *final(gd) == *old(gd) && ((initialized < 0 && e == Errno::EIO)
                        || (initialized >= 0 && bit == u32::MAX && e == Errno::EINVAL)
                        || (initialized >= 0 && bit < u32::MAX && bit + 1 > initialized && bit + 1 > self.inodes_per_group && e == Errno::EIO)),
                }
            }),
    {
        let initialized = match self.inodes_per_group.checked_sub(gd.itable_unused) {
            Some(v) => v,
            None => return Err(Errno::EIO),
        };
        let new_initialized = match bit.checked_add(1) {
            Some(v) => v,
            None => return Err(Errno::EINVAL),
        };
        if new_initialized > initialized {
            gd.itable_unused = match self.inodes_per_group.checked_sub(new_initialized) {
                Some(v) => v,
                None => return Err(Errno::EIO),
            };
        }
        gd.flags = gd.flags & !EXT4_BG_INODE_UNINIT;
        Ok(())
    }

    /// The number of extent-tree blocks outside the inode that `extent_count` leaves need;
    /// `EINVAL` if it does not fit 64 bits.
    pub fn external_extent_block_count_for_extent_count(&self, extent_count: usize) -> (r: SysResult<u64>)
        requires
            self.wf(),
        ensures
            ({
                let t = external_blocks(extent_count as int, (self.block_size - EXTENT_HEADER_SIZE) / (EXTENT_ENTRY_SIZE as int));
                r == if t > u64::MAX { Err::<u64, Errno>(Errno::EINVAL) } else { Ok::<u64, Errno>(t as u64) }
            }),
            external_blocks(extent_count as int, (self.block_size - EXTENT_HEADER_SIZE) / (EXTENT_ENTRY_SIZE as int)) >= 0,
    {
        proof {
            let per = (self.block_size - EXTENT_HEADER_SIZE) / (EXTENT_ENTRY_SIZE as int);
            assert(per >= 84);
            if extent_count > ROOT_EXTENT_MAX {
                lemma_div_ceil_shrinks(extent_count as int, per);
                lemma_upper_nonneg(div_ceil(extent_count as int, per), per);
            }
        }
        if extent_count <= ROOT_EXTENT_MAX as usize {
            assert(external_blocks(extent_count as int, (self.block_size - EXTENT_HEADER_SIZE) / (EXTENT_ENTRY_SIZE as int)) == 0);
            return Ok(0);
        }
        let block_max = self.extent_block_max_entries()? as usize;
        let ghost per = block_max as int;
        assert((self.block_size - EXTENT_HEADER_SIZE) / (EXTENT_ENTRY_SIZE as int) <= 5460);
        assert(per == (self.block_size - EXTENT_HEADER_SIZE) / (EXTENT_ENTRY_SIZE as int));
        let mut nodes = ((extent_count - 1) / block_max + 1) as u64;
        assert(nodes == div_ceil(extent_count as int, per)) by (nonlinear_arith)
            requires
                extent_count > 4,
                per >= 84,
                nodes == (extent_count - 1) / per + 1,
        ;
        let mut total = nodes;
        while nodes > ROOT_EXTENT_MAX as u64
            invariant
                per == block_max,
                per == (self.block_size - EXTENT_HEADER_SIZE) / (EXTENT_ENTRY_SIZE as int),
                per >= 84,
                nodes > 0,
                total + upper_levels(nodes as int, per) == external_blocks(extent_count as int, per),
            decreases nodes,
        {
            proof {
                lemma_div_ceil_shrinks(nodes as int, per);
            }
            let next = (nodes - 1) / block_max as u64 + 1;
            assert(next == div_ceil(nodes as int, per)) by (nonlinear_arith)
                requires
                    nodes > 4,
                    per >= 84,
                    next == (nodes - 1) / per + 1,
            ;
            proof {
                lemma_upper_nonneg(next as int, per);
                assert(upper_levels(nodes as int, per) == next + upper_levels(next as int, per));
            }
            nodes = next;
            total = match total.checked_add(nodes) {
                Some(t) => t,
                None => return Err(Errno::EINVAL),
            };
        }
        assert(upper_levels(nodes as int, per) == 0);
        assert(total == external_blocks(extent_count as int, per));
        Ok(total)
    }
}

/// The free block count of the superblock on a device.
pub open spec fn dev_free_blocks(c: Context) -> int {
    spec_free_blocks(sb_bytes(c.dev@)) as int
}

/// The free inode count of the superblock on a device.
pub open spec fn dev_free_inodes(c: Context) -> int {
    le32(sb_bytes(c.dev@), SB_FREE_INODES_COUNT_OFF as int)
}

/// The device holds a superblock that reads back (magic, and checksum when checksums are on)
/// and that can be written over.
pub open spec fn sb_rewritable(c: Context) -> bool {
    &&& c.dev@.len() >= EXT4_SUPERBLOCK_OFFSET + EXT4_SUPERBLOCK_SIZE
    &&& le16(sb_bytes(c.dev@), SB_MAGIC_OFF as int) == EXT4_SUPER_MAGIC
    &&& (c.metadata_csum ==> sb_checksum_ok(sb_bytes(c.dev@)))
    &&& !c.dev.spec_read_only()
}

/// The superblock on the device after a write holds `raw` (checksummed when checksums are on).
proof fn lemma_sb_after_write(pre: Context, post: Context, raw: Seq<u8>)
    requires
        raw.len() == EXT4_SUPERBLOCK_SIZE,
        pre.dev@.len() >= EXT4_SUPERBLOCK_OFFSET + EXT4_SUPERBLOCK_SIZE,
        post.dev@ == pre.dev@.subrange(0, EXT4_SUPERBLOCK_OFFSET as int) + raw
            + pre.dev@.subrange((EXT4_SUPERBLOCK_OFFSET + EXT4_SUPERBLOCK_SIZE) as int, pre.dev@.len() as int),
    ensures
        sb_bytes(post.dev@) == raw,
{
    assert(sb_bytes(post.dev@) =~= raw);
}

/// The block that holds the superblock.
pub open spec fn sb_block(c: Context) -> int {
    EXT4_SUPERBLOCK_OFFSET as int / (c.block_size as int)
}

/// Every byte of the superblock lies in `sb_block`.
proof fn lemma_sb_byte_block(c: Context, i: int)
    requires
        c.wf(),
        EXT4_SUPERBLOCK_OFFSET <= i < EXT4_SUPERBLOCK_OFFSET + EXT4_SUPERBLOCK_SIZE,
    ensures
        i / (c.block_size as int) == sb_block(c),
{
    let bs = c.block_size as int;
    if bs == 1024 {
        lemma_byte_in_block(i, 1, bs);
    } else {
        assert(bs >= 2048);
        lemma_byte_in_block(i, 0, bs);
        assert(1024int / bs == 0) by (nonlinear_arith)
            requires
                bs >= 2048,
        ;
    }
}

/// Changes to blocks other than the superblock's keep the superblock.
pub proof fn lemma_frame_sb(c: Context, a: Seq<u8>, b: Seq<u8>, blocks: Set<int>)
    requires
        c.wf(),
        only_blocks_changed(c, a, b, blocks),
        !blocks.contains(sb_block(c)),
        a.len() >= EXT4_SUPERBLOCK_OFFSET + EXT4_SUPERBLOCK_SIZE,
    ensures
        sb_bytes(b) == sb_bytes(a),
{
    assert forall|k: int| 0 <= k < EXT4_SUPERBLOCK_SIZE implies #[trigger] sb_bytes(b)[k] == sb_bytes(a)[k] by {
        lemma_sb_byte_block(c, EXT4_SUPERBLOCK_OFFSET + k);
        assert(b[EXT4_SUPERBLOCK_OFFSET + k] == a[EXT4_SUPERBLOCK_OFFSET + k]);
    }
    assert(sb_bytes(b) =~= sb_bytes(a));
}

/// Writing the superblock changes only its block.
proof fn lemma_sb_write_frame(c: Context, pre: Seq<u8>, post: Seq<u8>, raw: Seq<u8>)
    requires
        c.wf(),
        raw.len() == EXT4_SUPERBLOCK_SIZE,
        pre.len() >= EXT4_SUPERBLOCK_OFFSET + EXT4_SUPERBLOCK_SIZE,
        post == pre.subrange(0, EXT4_SUPERBLOCK_OFFSET as int) + raw
            + pre.subrange((EXT4_SUPERBLOCK_OFFSET + EXT4_SUPERBLOCK_SIZE) as int, pre.len() as int),
    ensures
        only_blocks_changed(c, pre, post, set![sb_block(c)]),
{
    assert forall|i: int| 0 <= i < pre.len() && !set![sb_block(c)].contains(i / (c.block_size as int)) implies
        #[trigger] post[i] == pre[i] by {
        if EXT4_SUPERBLOCK_OFFSET <= i < EXT4_SUPERBLOCK_OFFSET + EXT4_SUPERBLOCK_SIZE {
            lemma_sb_byte_block(c, i);
        }
    }
}

impl Context {
    /// Takes one block off the superblock's free block count.
    pub fn dec_superblock_free_blocks(&mut self) -> (r: SysResult<()>)
        requires
            old(self).wf(),
        ensures
            final(self).unchanged_but_dev(*old(self)),
            r is Ok ==> dev_free_blocks(*final(self)) == dev_free_blocks(*old(self)) - 1,
            r is Err ==> final(self).dev@ == old(self).dev@,
            r is Ok <==> sb_rewritable(*old(self)) && dev_free_blocks(*old(self)) > 0,
            r matches Err(e) ==> e == Errno::EIO,
            r is Ok ==> only_blocks_changed(*old(self), old(self).dev@, final(self).dev@, set![sb_block(*old(self))]),
    {
        let mut sb = self.read_superblock()?;
        let free = match sb.free_blocks_count()?.checked_sub(1) {
            Some(f) => f,
            None => return Err(Errno::EIO),
        };
        sb.set_free_blocks_count(free)?;
        let ghost pre = *self;
        let ghost raw0 = sb.raw@;
        let r = self.write_superblock(&mut sb);
        proof {
            if r is Ok {
                lemma_sb_after_write(pre, *self, sb.raw@);
                lemma_sb_write_frame(pre, pre.dev@, self.dev@, sb.raw@);
                if self.metadata_csum {
                    lemma_sb_checksum_keeps(raw0, SB_FREE_BLOCKS_COUNT_LO_OFF as int);
                    lemma_sb_checksum_keeps(raw0, SB_FREE_BLOCKS_COUNT_HI_OFF as int);
                }
            }
        }
        r
    }

    /// Adds one block to the superblock's free block count.
    pub fn inc_superblock_free_blocks(&mut self) -> (r: SysResult<()>)
        requires
            old(self).wf(),
        ensures
            final(self).unchanged_but_dev(*old(self)),
            r is Ok ==> dev_free_blocks(*final(self)) == dev_free_blocks(*old(self)) + 1,
            r is Err ==> final(self).dev@ == old(self).dev@,
            r is Ok <==> sb_rewritable(*old(self)) && dev_free_blocks(*old(self)) < u64::MAX,
            r matches Err(e) ==> e == Errno::EIO,
            r is Ok ==> only_blocks_changed(*old(self), old(self).dev@, final(self).dev@, set![sb_block(*old(self))]),
    {
        let mut sb = self.read_superblock()?;
        let free = match sb.free_blocks_count()?.checked_add(1) {
            Some(f) => f,
            None => return Err(Errno::EIO),
        };
        sb.set_free_blocks_count(free)?;
        let ghost pre = *self;
        let ghost raw0 = sb.raw@;
        let r = self.write_superblock(&mut sb);
        proof {
            if r is Ok {
                lemma_sb_after_write(pre, *self, sb.raw@);
                lemma_sb_write_frame(pre, pre.dev@, self.dev@, sb.raw@);
                if self.metadata_csum {
                    lemma_sb_checksum_keeps(raw0, SB_FREE_BLOCKS_COUNT_LO_OFF as int);
                    lemma_sb_checksum_keeps(raw0, SB_FREE_BLOCKS_COUNT_HI_OFF as int);
                }
            }
        }
        r
    }

    /// Takes one inode off the superblock's free inode count.
    pub fn dec_superblock_free_inodes(&mut self) -> (r: SysResult<()>)
        requires
            old(self).wf(),
        ensures
            final(self).unchanged_but_dev(*old(self)),
            r is Ok ==> dev_free_inodes(*final(self)) == dev_free_inodes(*old(self)) - 1,
            r is Err ==> final(self).dev@ == old(self).dev@,
            r is Ok <==> sb_rewritable(*old(self)) && dev_free_inodes(*old(self)) > 0,
            r matches Err(e) ==> e == Errno::EIO,
            r is Ok ==> only_blocks_changed(*old(self), old(self).dev@, final(self).dev@, set![sb_block(*old(self))]),
    {
        let mut sb = self.read_superblock()?;
        let free = match sb.free_inodes_count()?.checked_sub(1) {
            Some(f) => f,
            None => return Err(Errno::EIO),
        };
        sb.set_free_inodes_count(free)?;
        let ghost pre = *self;
        let ghost raw0 = sb.raw@;
        let r = self.write_superblock(&mut sb);
        proof {
            if r is Ok {
                lemma_sb_after_write(pre, *self, sb.raw@);
                lemma_sb_write_frame(pre, pre.dev@, self.dev@, sb.raw@);
                if self.metadata_csum {
                    lemma_sb_checksum_keeps(raw0, SB_FREE_INODES_COUNT_OFF as int);
                }
            }
        }
        r
    }

    /// Adds one inode to the superblock's free inode count.
    pub fn inc_superblock_free_inodes(&mut self) -> (r: SysResult<()>)
        requires
            old(self).wf(),
        ensures
            final(self).unchanged_but_dev(*old(self)),
            r is Ok ==> dev_free_inodes(*final(self)) == dev_free_inodes(*old(self)) + 1,
            r is Err ==> final(self).dev@ == old(self).dev@,
            r is Ok <==> sb_rewritable(*old(self)) && dev_free_inodes(*old(self)) < u32::MAX,
            r matches Err(e) ==> e == Errno::EIO,
            r is Ok ==> only_blocks_changed(*old(self), old(self).dev@, final(self).dev@, set![sb_block(*old(self))]),
    {
        let mut sb = self.read_superblock()?;
        let free = match sb.free_inodes_count()?.checked_add(1) {
            Some(f) => f,
            None => return Err(Errno::EIO),
        };
        sb.set_free_inodes_count(free)?;
        let ghost pre = *self;
        let ghost raw0 = sb.raw@;
        let r = self.write_superblock(&mut sb);
        proof {
            if r is Ok {
                lemma_sb_after_write(pre, *self, sb.raw@);
                lemma_sb_write_frame(pre, pre.dev@, self.dev@, sb.raw@);
                if self.metadata_csum {
                    lemma_sb_checksum_keeps(raw0, SB_FREE_INODES_COUNT_OFF as int);
                }
            }
        }
        r
    }
}

/// Zeros in a block.
pub open spec fn zero_block(c: Context) -> Seq<u8> {
    Seq::new(c.block_size as nat, |i: int| 0u8)
}

/// After a successful store of `data` at block `pblk`, reading `pblk` gives `data`.
proof fn lemma_read_back(pre: Context, post: Context, pblk: int, data: Seq<u8>)
    requires
        pre.wf(),
        0 <= pblk,
        post.unchanged_but_dev(pre),
        data.len() == pre.block_size,
        blocks_write(pre, pblk, data) == Ok::<Seq<u8>, Errno>(post.dev@),
    ensures
        block_read(post, pblk) == Ok::<Seq<u8>, Errno>(data),
{
    assert(block_read(pre, pblk) is Ok) by {
        super::io::lemma_div_self(pre.block_size as int);
    }
    super::group_desc::lemma_block_read_after_store(pre, post, pblk, data);
}

/// What freeing block `pblk` gave, from `pre` to `post`: a block outside the groups is
/// `EINVAL`; the error of reading its group's block bitmap is passed on; a block whose bit is
/// clear is `EIO`; in each of these cases nothing was written. A block is freed only when its
/// bit was set.
pub open spec fn free_block_outcome(pre: Context, post: Context, pblk: u64, r: SysResult<()>) -> bool {
    let rel = pblk - pre.first_data_block;
    let g = rel / (pre.blocks_per_group as int);
    let b = rel % (pre.blocks_per_group as int);
    &&& post.unchanged_but_dev(pre)
    &&& if pblk < pre.first_data_block || g >= pre.groups_count {
        r == Err::<(), Errno>(Errno::EINVAL) && post.dev@ == pre.dev@
    } else {
        match block_bitmap_read(pre, g) {
            Err(e) => r == Err::<(), Errno>(e) && post.dev@ == pre.dev@,
            Ok(bm) => if !bit_of(bm.1, b) {
                r == Err::<(), Errno>(Errno::EIO) && post.dev@ == pre.dev@
            } else {
                &&& meta_apart(pre, g, bm.0 as int) && free_writable(pre, g, bm.1) ==> r is Ok
                &&& r is Ok && meta_apart(pre, g, bm.0 as int) ==> {
                    &&& block_read(post, bm.0 as int) matches Ok(nb) && bit_changed(bm.1, nb, b, false)
                    &&& gd_free_blocks(post, g) == keep(gd_free_blocks(pre, g) + 1, pre.desc_size as int, 0x10000, 32)
                    &&& dev_free_blocks(post) == dev_free_blocks(pre) + 1
                }
            },
        }
    }
}

/// Returning a block of group `g`, whose block bitmap holds `bm`, can be written through: the
/// device takes writes, the superblock reads back and its free count can grow, so can the
/// group's, and with checksums the bitmap's checksum can be taken.
pub open spec fn free_writable(c: Context, g: int, bm: Seq<u8>) -> bool {
    &&& !c.dev.spec_read_only()
    &&& sb_rewritable(c)
    &&& dev_free_blocks(c) < u64::MAX
    &&& gd_free_blocks(c, g) < u32::MAX
    &&& c.metadata_csum ==> bitmap_checksum_result(c, bm, true) is Ok
}

/// Taking block `pblk` of a group whose block bitmap holds `bm` can be written through: the
/// device takes writes, the superblock reads back and counts a free block, the block itself
/// reads, and with checksums the bitmap's checksum can be taken.
pub open spec fn take_writable(c: Context, bm: Seq<u8>, pblk: int) -> bool {
    &&& !c.dev.spec_read_only()
    &&& sb_rewritable(c)
    &&& dev_free_blocks(c) > 0
    &&& block_read(c, pblk) is Ok
    &&& c.metadata_csum ==> bitmap_checksum_result(c, bm, true) is Ok
}

/// The free-block count that the descriptor of group `g` holds, or -1 when it does not read.
pub open spec fn gd_free_blocks(c: Context, g: int) -> int {
    match gd_read_result(c, g) {
        Ok(raw) => gd_wide16(raw, c.desc_size as int, GD_FREE_BLOCKS_LO_OFF as int, GD_FREE_BLOCKS_HI_OFF as int),
        Err(_) => -1,
    }
}

/// The free-inode count that the descriptor of group `g` holds, or -1 when it does not read.
pub open spec fn gd_free_inodes(c: Context, g: int) -> int {
    match gd_read_result(c, g) {
        Ok(raw) => gd_wide16(raw, c.desc_size as int, GD_FREE_INODES_LO_OFF as int, GD_FREE_INODES_HI_OFF as int),
        Err(_) => -1,
    }
}

/// The used-directory count that the descriptor of group `g` holds, or -1 when it does not read.
pub open spec fn gd_used_dirs(c: Context, g: int) -> int {
    match gd_read_result(c, g) {
        Ok(raw) => gd_wide16(raw, c.desc_size as int, GD_USED_DIRS_LO_OFF as int, GD_USED_DIRS_HI_OFF as int),
        Err(_) => -1,
    }
}

/// The block that the descriptor of group `g` names as its block bitmap, or -1 when the
/// descriptor does not read.
pub open spec fn gd_block_bitmap(c: Context, g: int) -> int {
    match gd_read_result(c, g) {
        Ok(raw) => gd_wide32(raw, c.desc_size as int, GD_BLOCK_BITMAP_LO_OFF as int, GD_BLOCK_BITMAP_HI_OFF as int),
        Err(_) => -1,
    }
}

/// The block that the descriptor of group `g` names as its inode bitmap, or -1 when the
/// descriptor does not read.
pub open spec fn gd_inode_bitmap(c: Context, g: int) -> int {
    match gd_read_result(c, g) {
        Ok(raw) => gd_wide32(raw, c.desc_size as int, GD_INODE_BITMAP_LO_OFF as int, GD_INODE_BITMAP_HI_OFF as int),
        Err(_) => -1,
    }
}

/// The first inode-table block that the descriptor of group `g` names, or -1 when the
/// descriptor does not read.
pub open spec fn gd_inode_table(c: Context, g: int) -> int {
    match gd_read_result(c, g) {
        Ok(raw) => gd_wide32(raw, c.desc_size as int, GD_INODE_TABLE_LO_OFF as int, GD_INODE_TABLE_HI_OFF as int),
        Err(_) => -1,
    }
}

/// The unused-inode-table count that the descriptor of group `g` holds, or -1 when it does
/// not read.
pub open spec fn gd_itable_unused(c: Context, g: int) -> int {
    match gd_read_result(c, g) {
        Ok(raw) => gd_wide16(raw, c.desc_size as int, GD_ITABLE_UNUSED_LO_OFF as int, GD_ITABLE_UNUSED_HI_OFF as int),
        Err(_) => -1,
    }
}

/// The flags that the descriptor of group `g` holds, or 0 when it does not read.
pub open spec fn gd_flags(c: Context, g: int) -> u16 {
    match gd_read_result(c, g) {
        Ok(raw) => le16(raw, GD_FLAGS_OFF as int) as u16,
        Err(_) => 0,
    }
}

/// Taking inode `ino`, bit `b` of group `g` whose inode bitmap holds `bm`, can be written
/// through: the device takes writes, the superblock reads back and counts a free inode, the
/// inode's record can be zeroed, the group's counts can move, the inode number fits, and with
/// checksums the bitmap's checksum can be taken.
pub open spec fn inode_take_writable(c: Context, g: int, b: int, bm: Seq<u8>, ino: int, is_dir: bool) -> bool {
    &&& !c.dev.spec_read_only()
    &&& sb_rewritable(c)
    &&& dev_free_inodes(c) > 0
    &&& ino == g * c.inodes_per_group + b + 1
    &&& ino <= u32::MAX
    &&& record_zeroable(c, ino as u32)
    &&& 0 <= gd_itable_unused(c, g) <= c.inodes_per_group
    &&& is_dir ==> gd_used_dirs(c, g) < u32::MAX
    &&& c.metadata_csum ==> bitmap_checksum_result(c, bm, false) is Ok
}

/// The record of inode `ino` is found where it was when only blocks other than the
/// descriptor's changed and the descriptor's inode-table field kept its value.
proof fn lemma_location_kept(s0: Context, s: Context, g: int, ino: u32, raw: Seq<u8>)
    requires
        s0.wf(),
        s.unchanged_but_dev(s0),
        ino > 0,
        (ino - 1) / (s0.inodes_per_group as int) == g,
        gd_read_result(s, g) == Ok::<Seq<u8>, Errno>(raw),
        gd_read_result(s0, g) is Ok,
        gd_wide32(raw, s0.desc_size as int, GD_INODE_TABLE_LO_OFF as int, GD_INODE_TABLE_HI_OFF as int)
            == keep(gd_inode_table(s0, g), s0.desc_size as int, 0x1_0000_0000, 32),
    ensures
        inode_location_result(s, ino) == inode_location_result(s0, ino),
{
}

/// What taking inode `ino`, bit `b` of group `g`, did from `pre` to `post`, where the inode
/// bitmap, the descriptor-table block, the superblock's block and the block holding the
/// inode's record are apart: the bit is set in the group's inode bitmap, the group counts one
/// free inode less (and one directory more when `is_dir`), and the superblock one free inode less.
pub open spec fn inode_taken(pre: Context, post: Context, g: int, b: int, is_dir: bool, ino: u32) -> bool {
    match inode_bitmap_read(pre, g) {
        Ok(bm) => match inode_location_result(pre, ino) {
            Ok(loc) => alloc_apart(pre, g, bm.0 as int, loc.0 as int) && b / 8 < pre.block_size ==> {
                &&& block_read(post, bm.0 as int) matches Ok(nb) && bit_changed(bm.1, nb, b, true)
                &&& gd_free_inodes(post, g) == gd_free_inodes(pre, g) - 1
                &&& gd_used_dirs(post, g) == keep(gd_used_dirs(pre, g) + (if is_dir { 1int } else { 0int }),
                    pre.desc_size as int, 0x10000, 32)
                &&& gd_inode_bitmap(post, g) == gd_inode_bitmap(pre, g)
                &&& dev_free_inodes(post) == dev_free_inodes(pre) - 1
                &&& gd_flags(post, g) & EXT4_BG_INODE_UNINIT == 0
                &&& gd_itable_unused(post, g) <= pre.inodes_per_group - (b + 1)
                &&& inode_raw_read(post, ino) == Ok::<Seq<u8>, Errno>(Seq::new(pre.inode_size as nat, |i: int| 0u8))
            },
            Err(_) => true,
        },
        Err(_) => true,
    }
}

/// A record just zeroed in place reads back as zeros, when its block holds no descriptor the
/// location depends on.
#[verifier::spinoff_prover]
proof fn lemma_record_zeroed(s3: Context, s4: Context, ino: u32)
    requires
        s3.wf(),
        s4.unchanged_but_dev(s3),
        inode_stored(s3, s4, ino, Seq::new(s3.inode_size as nat, |i: int| 0u8)),
        record_zeroable(s3, ino),
        inode_location_result(s4, ino) == inode_location_result(s3, ino),
    ensures
        inode_raw_read(s4, ino) == Ok::<Seq<u8>, Errno>(Seq::new(s3.inode_size as nat, |i: int| 0u8)),
{
    let loc = inode_location_result(s3, ino)->Ok_0;
    let b = block_read(s3, loc.0 as int)->Ok_0;
    let z = Seq::new(s3.inode_size as nat, |i: int| 0u8);
    let data = splice(b, loc.1 as int, z);
    assert(data.len() == s3.block_size);
    super::group_desc::lemma_block_read_after_store(s3, s4, loc.0 as int, data);
    assert(data.subrange(loc.1 as int, loc.1 + s3.inode_size) =~= z);
}

/// The writes of an inode allocation, each to its own block, leave the bit set and the
/// counts moved by one.
#[verifier::spinoff_prover]
#[verifier::rlimit(100)]
proof fn lemma_inode_taken(s0: Context, s1: Context, s2: Context, s3: Context, s4: Context, g: int, b: int,
    ino: u32, p: u64, bm: Seq<u8>, nb: Seq<u8>, raw2: Seq<u8>, fi2: int, ud2: int, vfi: int, vud: int, is_dir: bool,
    flags2: u16, iu2: int)
    requires
        le16(raw2, GD_FLAGS_OFF as int) == flags2,
        flags2 & EXT4_BG_INODE_UNINIT == 0,
        gd_wide16(raw2, s0.desc_size as int, GD_ITABLE_UNUSED_LO_OFF as int, GD_ITABLE_UNUSED_HI_OFF as int)
            == keep(iu2, s0.desc_size as int, 0x10000, 32),
        0 <= iu2 <= s0.inodes_per_group - (b + 1),
        s0.wf(),
        s1.unchanged_but_dev(s0),
        s2.unchanged_but_dev(s0),
        s3.unchanged_but_dev(s0),
        s4.unchanged_but_dev(s0),
        0 <= g,
        ino > 0,
        (ino - 1) / (s0.inodes_per_group as int) == g,
        inode_bitmap_read(s0, g) == Ok::<(u64, Seq<u8>), Errno>((p, bm)),
        gd_free_inodes(s0, g) == vfi,
        gd_used_dirs(s0, g) == vud,
        forall|j: int| #[trigger] bit_of(nb, j) == ((j == b && b / 8 < bm.len()) || bit_of(bm, j)),
        only_blocks_changed(s0, s0.dev@, s1.dev@, set![p as int, gd_location(s0, g).0 as int]),
        p != gd_location(s0, g).0 ==> block_read(s1, p as int) == Ok::<Seq<u8>, Errno>(nb),
        only_blocks_changed(s0, s1.dev@, s2.dev@, set![gd_location(s0, g).0 as int]),
        gd_read_result(s2, g) == Ok::<Seq<u8>, Errno>(raw2),
        gd_wide16(raw2, s0.desc_size as int, GD_FREE_INODES_LO_OFF as int, GD_FREE_INODES_HI_OFF as int)
            == keep(fi2, s0.desc_size as int, 0x10000, 32),
        gd_wide16(raw2, s0.desc_size as int, GD_USED_DIRS_LO_OFF as int, GD_USED_DIRS_HI_OFF as int)
            == keep(ud2, s0.desc_size as int, 0x10000, 32),
        gd_wide32(raw2, s0.desc_size as int, GD_INODE_TABLE_LO_OFF as int, GD_INODE_TABLE_HI_OFF as int)
            == keep(gd_inode_table(s0, g), s0.desc_size as int, 0x1_0000_0000, 32),
        gd_wide32(raw2, s0.desc_size as int, GD_INODE_BITMAP_LO_OFF as int, GD_INODE_BITMAP_HI_OFF as int)
            == keep(p as int, s0.desc_size as int, 0x1_0000_0000, 32),
        fi2 == vfi - 1,
        0 <= fi2,
        ud2 == vud + (if is_dir { 1int } else { 0int }),
        dev_free_inodes(s3) == dev_free_inodes(s2) - 1,
        only_blocks_changed(s0, s2.dev@, s3.dev@, set![sb_block(s0)]),
        inode_stored(s3, s4, ino, Seq::new(s0.inode_size as nat, |i: int| 0u8)),
        record_zeroable(s3, ino),
    ensures
        inode_taken(s0, s4, g, b, is_dir, ino),
{
    let pp = p as int;
    let gdb = gd_location(s0, g).0 as int;
    let sbb = sb_block(s0);
    let bs = s0.block_size as int;
    if inode_location_result(s0, ino) is Ok {
        let tb = inode_location_result(s0, ino)->Ok_0.0 as int;
        if alloc_apart(s0, g, pp, tb) && b / 8 < s0.block_size {
            assert(s0.dev@.len() >= EXT4_SUPERBLOCK_OFFSET + EXT4_SUPERBLOCK_SIZE) by {
                assert(gd_read_result(s0, g) is Ok);
                assert(block_read(s0, gdb) is Ok);
                let dpb = bs / (s0.desc_size as int);
                assert(dpb >= 1 && g / dpb >= 0) by (nonlinear_arith)
                    requires
                        dpb == bs / (s0.desc_size as int),
                        bs >= 1024,
                        32 <= s0.desc_size <= 64,
                        g >= 0,
                ;
                assert(gdb >= 1);
                assert(gdb * bs >= bs) by (nonlinear_arith)
                    requires
                        gdb >= 1,
                        bs > 0,
                ;
            }
            lemma_frame_block_read(s1, s2, pp, set![gdb]);
            lemma_frame_block_read(s2, s3, pp, set![sbb]);
            lemma_frame_block_read(s2, s3, gdb, set![sbb]);
            assert(gd_read_result(s3, g) == gd_read_result(s2, g));
            assert(inode_location_result(s3, ino) == inode_location_result(s0, ino));
            let loc = inode_location_result(s3, ino)->Ok_0;
            let blk = block_read(s3, loc.0 as int)->Ok_0;
            let data = splice(blk, loc.1 as int, Seq::new(s0.inode_size as nat, |i: int| 0u8));
            assert(data.len() == bs);
            lemma_store_frame(s3, s3.dev@, tb, data);
            lemma_frame_block_read(s3, s4, pp, set![tb]);
            lemma_frame_block_read(s3, s4, gdb, set![tb]);
            assert(gd_read_result(s4, g) == gd_read_result(s2, g));
            lemma_frame_trans(s0, s0.dev@, s1.dev@, s2.dev@, set![pp, gdb], set![gdb]);
            lemma_frame_sb(s0, s0.dev@, s2.dev@, set![pp, gdb].union(set![gdb]));
            lemma_frame_sb(s0, s3.dev@, s4.dev@, set![tb]);
            assert(bit_changed(bm, nb, b, true));
            assert(gd_inode_bitmap(s4, g) == gd_inode_bitmap(s0, g));
            assert(inode_location_result(s4, ino) == inode_location_result(s3, ino));
            lemma_record_zeroed(s3, s4, ino);
        }
    }
}

/// A bitmap at block `bm_pblk`, the descriptor-table block of group `g` and the superblock's
/// block are three different blocks (on a sound image they always are).
pub open spec fn meta_apart(c: Context, g: int, bm_pblk: int) -> bool {
    let gdb = gd_location(c, g).0 as int;
    &&& bm_pblk != gdb
    &&& bm_pblk != sb_block(c)
    &&& gdb != sb_block(c)
}

/// The bitmap at `bm_pblk`, the descriptor-table block of group `g`, the superblock's block
/// and block `pblk` are four different blocks.
pub open spec fn alloc_apart(c: Context, g: int, bm_pblk: int, pblk: int) -> bool {
    let gdb = gd_location(c, g).0 as int;
    &&& meta_apart(c, g, bm_pblk)
    &&& pblk != bm_pblk
    &&& pblk != gdb
    &&& pblk != sb_block(c)
}

/// What taking block `pblk`, bit `b` of group `g`, did from `pre` to `post`, where the
/// blocks it touched are apart: the bit is set in the group's block bitmap and the group's
/// and the superblock's free block counts are one lower.
pub open spec fn block_taken(pre: Context, post: Context, g: int, b: int, pblk: int) -> bool {
    match block_bitmap_read(pre, g) {
        Ok(bm) => alloc_apart(pre, g, bm.0 as int, pblk) && b / 8 < pre.block_size ==> {
            &&& block_read(post, bm.0 as int) matches Ok(nb) && bit_changed(bm.1, nb, b, true)
            &&& gd_free_blocks(post, g) == gd_free_blocks(pre, g) - 1
            &&& gd_block_bitmap(post, g) == gd_block_bitmap(pre, g)
            &&& dev_free_blocks(post) == dev_free_blocks(pre) - 1
        },
        Err(_) => true,
    }
}

/// The writes of a block allocation, each to its own block, leave the bit set and both
/// counts one lower.
#[verifier::spinoff_prover]
#[verifier::rlimit(60)]
proof fn lemma_block_taken(s0: Context, s1: Context, s2: Context, s3: Context, s4: Context, g: int, b: int,
    pblk: int, p: u64, bm: Seq<u8>, nb: Seq<u8>, raw2: Seq<u8>, c2: int, v: int)
    requires
        s0.wf(),
        s1.unchanged_but_dev(s0),
        s2.unchanged_but_dev(s0),
        s3.unchanged_but_dev(s0),
        s4.unchanged_but_dev(s0),
        0 <= pblk,
        0 <= g,
        block_bitmap_read(s0, g) == Ok::<(u64, Seq<u8>), Errno>((p, bm)),
        gd_free_blocks(s0, g) == v,
        0 < v,
        forall|j: int| #[trigger] bit_of(nb, j) == ((j == b && b / 8 < bm.len()) || bit_of(bm, j)),
        only_blocks_changed(s0, s0.dev@, s1.dev@, set![p as int, gd_location(s0, g).0 as int]),
        p != gd_location(s0, g).0 ==> block_read(s1, p as int) == Ok::<Seq<u8>, Errno>(nb),
        only_blocks_changed(s0, s1.dev@, s2.dev@, set![gd_location(s0, g).0 as int]),
        gd_read_result(s2, g) == Ok::<Seq<u8>, Errno>(raw2),
        gd_wide16(raw2, s0.desc_size as int, GD_FREE_BLOCKS_LO_OFF as int, GD_FREE_BLOCKS_HI_OFF as int)
            == keep(c2, s0.desc_size as int, 0x10000, 32),
        c2 == v - 1,
        gd_wide32(raw2, s0.desc_size as int, GD_BLOCK_BITMAP_LO_OFF as int, GD_BLOCK_BITMAP_HI_OFF as int)
            == keep(p as int, s0.desc_size as int, 0x1_0000_0000, 32),
        dev_free_blocks(s3) == dev_free_blocks(s2) - 1,
        only_blocks_changed(s0, s2.dev@, s3.dev@, set![sb_block(s0)]),
        blocks_write(s3, pblk, zero_block(s3)) == Ok::<Seq<u8>, Errno>(s4.dev@),
    ensures
        block_taken(s0, s4, g, b, pblk),
{
    let pp = p as int;
    let gdb = gd_location(s0, g).0 as int;
    let sbb = sb_block(s0);
    if alloc_apart(s0, g, pp, pblk) && b / 8 < s0.block_size {
        assert(s0.dev@.len() >= EXT4_SUPERBLOCK_OFFSET + EXT4_SUPERBLOCK_SIZE) by {
            let bs = s0.block_size as int;
            assert(gd_read_result(s0, g) is Ok);
            assert(block_read(s0, gdb) is Ok);
            let dpb = bs / (s0.desc_size as int);
            assert(dpb >= 1 && g / dpb >= 0) by (nonlinear_arith)
                requires
                    dpb == bs / (s0.desc_size as int),
                    bs >= 1024,
                    32 <= s0.desc_size <= 64,
                    g >= 0,
            ;
            assert(gdb >= 1);
            assert(gdb * bs >= bs) by (nonlinear_arith)
                requires
                    gdb >= 1,
                    bs > 0,
            ;
        }
        lemma_store_frame(s3, s3.dev@, pblk, zero_block(s3));
        lemma_frame_block_read(s1, s2, pp, set![gdb]);
        lemma_frame_block_read(s2, s3, pp, set![sbb]);
        lemma_frame_block_read(s3, s4, pp, set![pblk]);
        lemma_frame_block_read(s2, s3, gdb, set![sbb]);
        lemma_frame_block_read(s3, s4, gdb, set![pblk]);
        assert(gd_read_result(s4, g) == gd_read_result(s2, g));
        lemma_frame_trans(s0, s0.dev@, s1.dev@, s2.dev@, set![pp, gdb], set![gdb]);
        lemma_frame_sb(s0, s0.dev@, s2.dev@, set![pp, gdb].union(set![gdb]));
        lemma_frame_sb(s0, s3.dev@, s4.dev@, set![pblk]);
        assert(bit_changed(bm, nb, b, true));
    }
}

/// Returning an inode of group `g`, whose inode bitmap holds `bm`, can be written through:
/// the device takes writes, the superblock reads back and its free count can grow, so can the
/// group's, a directory leaves a directory count to lower, and with checksums the bitmap's
/// checksum can be taken.
pub open spec fn inode_return_writable(c: Context, g: int, bm: Seq<u8>, was_dir: bool) -> bool {
    &&& !c.dev.spec_read_only()
    &&& sb_rewritable(c)
    &&& dev_free_inodes(c) < u32::MAX
    &&& gd_free_inodes(c, g) < u32::MAX
    &&& was_dir ==> gd_used_dirs(c, g) > 0
    &&& c.metadata_csum ==> bitmap_checksum_result(c, bm, false) is Ok
}

/// What returning inode bit `b` of group `g` did from `pre` to `post`, where `bm` is the
/// group's inode bitmap (block and bytes) in `pre`: the bit is clear, the group counts one
/// more free inode (and one directory less when `was_dir`), and so does the superblock.
pub open spec fn inode_returned(pre: Context, post: Context, g: int, b: int, bm: (u64, Seq<u8>), was_dir: bool) -> bool {
    &&& block_read(post, bm.0 as int) matches Ok(nb) && bit_changed(bm.1, nb, b, false)
    &&& gd_free_inodes(post, g) == keep(gd_free_inodes(pre, g) + 1, pre.desc_size as int, 0x10000, 32)
    &&& gd_used_dirs(post, g) == gd_used_dirs(pre, g) - (if was_dir { 1int } else { 0int })
    &&& dev_free_inodes(post) == dev_free_inodes(pre) + 1
}

/// The writes of returning an inode, each to its own block, leave the bit clear and the
/// counts moved by one.
#[verifier::spinoff_prover]
#[verifier::rlimit(60)]
proof fn lemma_inode_returned(s0: Context, s1: Context, s2: Context, s3: Context, g: int, b: int, p: u64,
    bm: Seq<u8>, nb: Seq<u8>, raw2: Seq<u8>, fi2: int, ud2: int, vfi: int, vud: int, was_dir: bool)
    requires
        s0.wf(),
        s1.unchanged_but_dev(s0),
        s2.unchanged_but_dev(s0),
        s3.unchanged_but_dev(s0),
        0 <= g,
        inode_bitmap_read(s0, g) == Ok::<(u64, Seq<u8>), Errno>((p, bm)),
        gd_free_inodes(s0, g) == vfi,
        gd_used_dirs(s0, g) == vud,
        bit_changed(bm, nb, b, false),
        only_blocks_changed(s0, s0.dev@, s1.dev@, set![p as int, gd_location(s0, g).0 as int]),
        p != gd_location(s0, g).0 ==> block_read(s1, p as int) == Ok::<Seq<u8>, Errno>(nb),
        only_blocks_changed(s0, s1.dev@, s2.dev@, set![gd_location(s0, g).0 as int]),
        gd_read_result(s2, g) == Ok::<Seq<u8>, Errno>(raw2),
        gd_wide16(raw2, s0.desc_size as int, GD_FREE_INODES_LO_OFF as int, GD_FREE_INODES_HI_OFF as int)
            == keep(fi2, s0.desc_size as int, 0x10000, 32),
        gd_wide16(raw2, s0.desc_size as int, GD_USED_DIRS_LO_OFF as int, GD_USED_DIRS_HI_OFF as int)
            == keep(ud2, s0.desc_size as int, 0x10000, 32),
        fi2 == vfi + 1,
        ud2 == vud - (if was_dir { 1int } else { 0int }),
        0 <= ud2,
        dev_free_inodes(s3) == dev_free_inodes(s2) + 1,
        only_blocks_changed(s0, s2.dev@, s3.dev@, set![sb_block(s0)]),
    ensures
        meta_apart(s0, g, p as int) ==> inode_returned(s0, s3, g, b, (p, bm), was_dir),
{
    let pp = p as int;
    let gdb = gd_location(s0, g).0 as int;
    let sbb = sb_block(s0);
    if meta_apart(s0, g, pp) {
        assert(s0.dev@.len() >= EXT4_SUPERBLOCK_OFFSET + EXT4_SUPERBLOCK_SIZE) by {
            let bs = s0.block_size as int;
            assert(gd_read_result(s0, g) is Ok);
            assert(block_read(s0, gdb) is Ok);
            let dpb = bs / (s0.desc_size as int);
            assert(dpb >= 1 && g / dpb >= 0) by (nonlinear_arith)
                requires
                    dpb == bs / (s0.desc_size as int),
                    bs >= 1024,
                    32 <= s0.desc_size <= 64,
                    g >= 0,
            ;
            assert(gdb >= 1);
            assert(gdb * bs >= bs) by (nonlinear_arith)
                requires
                    gdb >= 1,
                    bs > 0,
            ;
        }
        lemma_frame_block_read(s1, s2, pp, set![gdb]);
        lemma_frame_block_read(s2, s3, pp, set![sbb]);
        lemma_frame_block_read(s2, s3, gdb, set![sbb]);
        assert(gd_read_result(s3, g) == gd_read_result(s2, g));
        lemma_frame_trans(s0, s0.dev@, s1.dev@, s2.dev@, set![pp, gdb], set![gdb]);
        lemma_frame_sb(s0, s0.dev@, s2.dev@, set![pp, gdb].union(set![gdb]));
    }
}

/// A bit that the search for a free bit finds lies in the group, names a block of the file
/// system and is clear.
proof fn lemma_first_free_block_bit(c: Context, g: int, bm: Seq<u8>, bit: int)
    requires
        first_free_block_bit(c, g, bm, bit) is Some,
    ensures
        ({
            let b = first_free_block_bit(c, g, bm, bit)->Some_0;
            &&& bit <= b < c.blocks_per_group
            &&& g * c.blocks_per_group + c.first_data_block + b < c.blocks_count
            &&& !bit_of(bm, b)
        }),
    decreases c.blocks_per_group - bit,
{
    if bit >= 0 && bit < c.blocks_per_group && !(g * c.blocks_per_group + c.first_data_block + bit < c.blocks_count
        && !bit_of(bm, bit)) {
        lemma_first_free_block_bit(c, g, bm, bit + 1);
    }
}

/// What the search for a free block finds: a group from `g0` on whose block bitmap reads and
/// whose first free bit it is.
proof fn lemma_block_alloc_scan_found(c: Context, g0: int)
    requires
        block_alloc_scan(c, g0) matches Ok(Some(_)),
    ensures
        ({
            let p = block_alloc_scan(c, g0)->Ok_0->Some_0;
            &&& 0 <= g0 <= p.0 < c.groups_count
            &&& block_bitmap_read(c, p.0) matches Ok(bm) && first_free_block_bit(c, p.0, bm.1, 0) == Some(p.1)
        }),
    decreases c.groups_count - g0,
{
    if 0 <= g0 < c.groups_count {
        if let Ok(raw) = gd_read_result(c, g0) {
            if gd_wide16(raw, c.desc_size as int, GD_FREE_BLOCKS_LO_OFF as int, GD_FREE_BLOCKS_HI_OFF as int) == 0 {
                lemma_block_alloc_scan_found(c, g0 + 1);
            } else if let Ok(bm) = block_bitmap_read(c, g0) {
                if first_free_block_bit(c, g0, bm.1, 0) is None {
                    lemma_block_alloc_scan_found(c, g0 + 1);
                }
            }
        }
    }
}

/// Taking a block and then returning it undoes the allocation. When allocating from `s0` took
/// bit `b` of group `g`, that is block `g * blocks_per_group + first_data_block + b`, reaching
/// `s1`, and freeing that block from `s1` succeeded reaching `s2`, and the group's bitmap block,
/// its descriptor-table block, the superblock's block and the taken block are four different
/// blocks, then the bitmap holds every bit it held in `s0`, and the group's and the
/// superblock's free block counts are back to their values in `s0`.
#[verifier::spinoff_prover]
#[verifier::rlimit(80)]
pub proof fn law_block_alloc_free_round_trip(s0: Context, s1: Context, s2: Context, g: int, b: int)
    requires
        s0.wf(),
        s1.unchanged_but_dev(s0),
        block_alloc_scan(s0, 0) == Ok::<Option<(int, int)>, Errno>(Some((g, b))),
        block_taken(s0, s1, g, b, g * s0.blocks_per_group + s0.first_data_block + b),
        free_block_outcome(s1, s2, (g * s0.blocks_per_group + s0.first_data_block + b) as u64, Ok::<(), Errno>(())),
        block_bitmap_read(s0, g) is Ok,
        alloc_apart(s0, g, block_bitmap_read(s0, g)->Ok_0.0 as int, g * s0.blocks_per_group + s0.first_data_block + b),
        b / 8 < s0.block_size,
    ensures
        ({
            let bm = block_bitmap_read(s0, g)->Ok_0;
            &&& block_read(s2, bm.0 as int) matches Ok(nb) && forall|j: int| #[trigger] bit_of(nb, j) == bit_of(bm.1, j)
            &&& gd_free_blocks(s2, g) == gd_free_blocks(s0, g)
            &&& dev_free_blocks(s2) == dev_free_blocks(s0)
        }),
{
    lemma_block_alloc_scan_found(s0, 0);
    let bm = block_bitmap_read(s0, g)->Ok_0;
    lemma_first_free_block_bit(s0, g, bm.1, 0);
    let bpg = s0.blocks_per_group as int;
    let pblk = g * bpg + s0.first_data_block + b;
    assert((pblk - s0.first_data_block) / bpg == g && (pblk - s0.first_data_block) % bpg == b) by (nonlinear_arith)
        requires
            pblk - s0.first_data_block == g * bpg + b,
            0 <= b < bpg,
            0 <= g,
    ;
    assert(pblk < s0.blocks_count);
    assert(block_read(s1, bm.0 as int) matches Ok(x) && bit_changed(bm.1, x, b, true));
    let nb = block_read(s1, bm.0 as int)->Ok_0;
    assert(gd_block_bitmap(s1, g) == gd_block_bitmap(s0, g));
    assert(block_bitmap_read(s1, g) is Ok);
    let bm1 = block_bitmap_read(s1, g)->Ok_0;
    assert(bm1.0 == bm.0);
    assert(bm1.1 == nb);
    assert(bit_of(bm1.1, b));
    let nb2 = block_read(s2, bm.0 as int)->Ok_0;
    assert forall|j: int| #[trigger] bit_of(nb2, j) == bit_of(bm.1, j) by {
        if j != b {
            assert(bit_of(nb2, j) == bit_of(nb, j));
        }
    }
}

/// A bit that the search for a free inode finds lies in the group and is clear.
proof fn lemma_first_free_inode_bit(c: Context, bm: Seq<u8>, bit: int)
    requires
        first_free_inode_bit(c, bm, bit) is Some,
    ensures
        ({
            let b = first_free_inode_bit(c, bm, bit)->Some_0;
            &&& bit <= b < c.inodes_per_group
            &&& !bit_of(bm, b)
        }),
    decreases c.inodes_per_group - bit,
{
    if bit >= 0 && bit < c.inodes_per_group && bit_of(bm, bit) {
        lemma_first_free_inode_bit(c, bm, bit + 1);
    }
}

/// What the search for a free inode finds: a group from `g0` on whose inode bitmap reads and
/// whose first free bit it is.
proof fn lemma_inode_alloc_scan_found(c: Context, g0: int)
    requires
        inode_alloc_scan(c, g0) matches Ok(Some(_)),
    ensures
        ({
            let p = inode_alloc_scan(c, g0)->Ok_0->Some_0;
            &&& 0 <= g0 <= p.0 < c.groups_count
            &&& inode_bitmap_read(c, p.0) matches Ok(bm) && first_free_inode_bit(c, bm.1, 0) == Some(p.1)
        }),
    decreases c.groups_count - g0,
{
    if 0 <= g0 < c.groups_count {
        if let Ok(raw) = gd_read_result(c, g0) {
            if gd_wide16(raw, c.desc_size as int, GD_FREE_INODES_LO_OFF as int, GD_FREE_INODES_HI_OFF as int) == 0 {
                lemma_inode_alloc_scan_found(c, g0 + 1);
            } else if let Ok(bm) = inode_bitmap_read(c, g0) {
                if first_free_inode_bit(c, bm.1, 0) is None {
                    lemma_inode_alloc_scan_found(c, g0 + 1);
                }
            }
        }
    }
}

/// Taking an inode and then returning it undoes the allocation. When allocating from `s0`
/// took bit `b` of group `g`, that is inode `g * inodes_per_group + b + 1`, reaching `s1`, and
/// returning that inode (as a directory exactly when it was taken as one) from `s1` succeeded
/// reaching `s2`, and the group's inode bitmap block, its descriptor-table block, the
/// superblock's block and the block of the inode's record are four different blocks, then the
/// inode bitmap holds every bit it held in `s0`, and the group's free-inode and directory
/// counts and the superblock's free-inode count are back to their values in `s0`.
#[verifier::spinoff_prover]
#[verifier::rlimit(100)]
pub proof fn law_inode_alloc_free_round_trip(s0: Context, s1: Context, s2: Context, g: int, b: int, is_dir: bool)
    requires
        s0.wf(),
        s1.unchanged_but_dev(s0),
        inode_alloc_scan(s0, 0) == Ok::<Option<(int, int)>, Errno>(Some((g, b))),
        g * s0.inodes_per_group + b + 1 <= u32::MAX,
        inode_taken(s0, s1, g, b, is_dir, (g * s0.inodes_per_group + b + 1) as u32),
        inode_bitmap_read(s0, g) is Ok,
        inode_location_result(s0, (g * s0.inodes_per_group + b + 1) as u32) is Ok,
        alloc_apart(s0, g, inode_bitmap_read(s0, g)->Ok_0.0 as int,
            inode_location_result(s0, (g * s0.inodes_per_group + b + 1) as u32)->Ok_0.0 as int),
        b / 8 < s0.block_size,
        ({
            let ino = (g * s0.inodes_per_group + b + 1) as u32;
            let gi = (ino - 1) / (s1.inodes_per_group as int);
            match inode_bitmap_read(s1, gi) {
                Err(e) => false,
                Ok(bm) => bit_of(bm.1, (ino - 1) % (s1.inodes_per_group as int)) && (meta_apart(s1, gi, bm.0 as int)
                    ==> inode_returned(s1, s2, gi, (ino - 1) % (s1.inodes_per_group as int), bm, is_dir)),
            }
        }),
    ensures
        ({
            let bm = inode_bitmap_read(s0, g)->Ok_0;
            &&& block_read(s2, bm.0 as int) matches Ok(nb) && forall|j: int| #[trigger] bit_of(nb, j) == bit_of(bm.1, j)
            &&& gd_free_inodes(s2, g) == gd_free_inodes(s0, g)
            &&& gd_used_dirs(s2, g) == gd_used_dirs(s0, g)
            &&& dev_free_inodes(s2) == dev_free_inodes(s0)
        }),
{
    lemma_inode_alloc_scan_found(s0, 0);
    let bm = inode_bitmap_read(s0, g)->Ok_0;
    lemma_first_free_inode_bit(s0, bm.1, 0);
    let ipg = s0.inodes_per_group as int;
    let ino = g * ipg + b + 1;
    assert((ino - 1) / ipg == g && (ino - 1) % ipg == b) by (nonlinear_arith)
        requires
            ino - 1 == g * ipg + b,
            0 <= b < ipg,
            0 <= g,
    ;
    let ino32 = (g * s0.inodes_per_group + b + 1) as u32;
    assert(ino32 == ino);
    assert(inode_location_result(s0, ino32) is Ok);
    assert(block_read(s1, bm.0 as int) matches Ok(x) && bit_changed(bm.1, x, b, true));
    let nb = block_read(s1, bm.0 as int)->Ok_0;
    assert(gd_inode_bitmap(s1, g) == gd_inode_bitmap(s0, g));
    assert(inode_bitmap_read(s1, g) is Ok);
    let bm1 = inode_bitmap_read(s1, g)->Ok_0;
    assert(bm1.0 == bm.0);
    assert(bm1.1 == nb);
    let nb2 = block_read(s2, bm.0 as int)->Ok_0;
    assert forall|j: int| #[trigger] bit_of(nb2, j) == bit_of(bm.1, j) by {
        if j != b {
            assert(bit_of(nb2, j) == bit_of(nb, j));
        }
    }
}

/// Bitmap `new` is `old` with bit `b` set to `v` and every other bit kept.
pub open spec fn bit_changed(old: Seq<u8>, new: Seq<u8>, b: int, v: bool) -> bool {
    &&& bit_of(new, b) == v
    &&& forall|j: int| j != b ==> #[trigger] bit_of(new, j) == bit_of(old, j)
}

/// The first bit, from `bit` on, of group `g`'s block bitmap `bm` that is clear and names a
/// block of the file system.
pub open spec fn first_free_block_bit(c: Context, g: int, bm: Seq<u8>, bit: int) -> Option<int>
    decreases c.blocks_per_group - bit,
{
    if bit < 0 || bit >= c.blocks_per_group {
        None
    } else if g * c.blocks_per_group + c.first_data_block + bit < c.blocks_count && !bit_of(bm, bit) {
        Some(bit)
    } else {
        first_free_block_bit(c, g, bm, bit + 1)
    }
}

/// Where a search for a free block from group `g` on ends: at the group and bit of the first
/// free block of the first group whose descriptor counts free blocks, at none, or at the
/// error of reading a descriptor or a bitmap.
pub open spec fn block_alloc_scan(c: Context, g: int) -> Result<Option<(int, int)>, Errno>
    decreases c.groups_count - g,
{
    if g < 0 || g >= c.groups_count {
        Ok(None)
    } else {
        match gd_read_result(c, g) {
            Err(e) => Err(e),
            Ok(raw) => if gd_wide16(raw, c.desc_size as int, GD_FREE_BLOCKS_LO_OFF as int, GD_FREE_BLOCKS_HI_OFF as int) == 0 {
                block_alloc_scan(c, g + 1)
            } else {
                match block_bitmap_read(c, g) {
                    Err(e) => Err(e),
                    Ok(bm) => match first_free_block_bit(c, g, bm.1, 0) {
                        Some(b) => Ok(Some((g, b))),
                        None => block_alloc_scan(c, g + 1),
                    },
                }
            },
        }
    }
}

/// The first clear bit, from `bit` on, of group `g`'s inode bitmap `bm`.
pub open spec fn first_free_inode_bit(c: Context, bm: Seq<u8>, bit: int) -> Option<int>
    decreases c.inodes_per_group - bit,
{
    if bit < 0 || bit >= c.inodes_per_group {
        None
    } else if !bit_of(bm, bit) {
        Some(bit)
    } else {
        first_free_inode_bit(c, bm, bit + 1)
    }
}

/// Where a search for a free inode from group `g` on ends, as for blocks.
pub open spec fn inode_alloc_scan(c: Context, g: int) -> Result<Option<(int, int)>, Errno>
    decreases c.groups_count - g,
{
    if g < 0 || g >= c.groups_count {
        Ok(None)
    } else {
        match gd_read_result(c, g) {
            Err(e) => Err(e),
            Ok(raw) => if gd_wide16(raw, c.desc_size as int, GD_FREE_INODES_LO_OFF as int, GD_FREE_INODES_HI_OFF as int) == 0 {
                inode_alloc_scan(c, g + 1)
            } else {
                match inode_bitmap_read(c, g) {
                    Err(e) => Err(e),
                    Ok(bm) => match first_free_inode_bit(c, bm.1, 0) {
                        Some(b) => Ok(Some((g, b))),
                        None => inode_alloc_scan(c, g + 1),
                    },
                }
            },
        }
    }
}

/// The record of inode `ino` can be zeroed in place: it is located, its table block reads,
/// the record lies within the block and the device takes writes.
pub open spec fn record_zeroable(c: Context, ino: u32) -> bool {
    &&& inode_location_result(c, ino) matches Ok(loc)
    &&& block_read(c, loc.0 as int) is Ok
    &&& loc.1 + c.inode_size <= c.block_size
    &&& !c.dev.spec_read_only()
}

/// `cs` runs from one state to the next through freeing the first `n` of `blocks`, each
/// with the result `rs` gives.
pub open spec fn free_chain(cs: Seq<Context>, rs: Seq<SysResult<()>>, blocks: Seq<u64>, n: int) -> bool {
    &&& 0 <= n <= blocks.len()
    &&& cs.len() == n + 1
    &&& rs.len() == n
    &&& forall|k: int| 0 <= k < n ==> #[trigger] free_block_outcome(cs[k], cs[k + 1], blocks[k], rs[k])
}

impl Context {
    /// Reads the block bitmap of `group`, checking it unless the group's blocks are uninitialised.
    pub fn read_block_bitmap(&self, group: u32) -> (r: SysResult<Ext4BitmapBlock>)
        requires
            self.wf(),
        ensures
            match r {
                Ok(bm) => block_bitmap_read(*self, group as int) == Ok::<(u64, Seq<u8>), Errno>((bm.pblk, bm.raw@)),
                Err(e) => block_bitmap_read(*self, group as int) == Err::<(u64, Seq<u8>), Errno>(e),
            },
    {
        let gd = self.read_group_desc(group)?;
        self.read_block_bitmap_with_group_desc(group, &gd)
    }

    /// Takes the first free block of the first group with free blocks: marks it in the bitmap,
    /// updates the group and superblock counts, zeroes it and gives its number; `ENOSPC` when
    /// none is free.
    #[verifier::spinoff_prover]
    #[verifier::rlimit(80)]
    pub fn alloc_block(&mut self) -> (r: SysResult<u64>)
        requires
            old(self).wf(),
        ensures
            final(self).unchanged_but_dev(*old(self)),
            match r {
                Ok(pblk) => pblk < old(self).blocks_count && block_read(*final(self), pblk as int)
                    == Ok::<Seq<u8>, Errno>(zero_block(*old(self))),
                Err(_) => true,
            },
            match block_alloc_scan(*old(self), 0) {
                Err(e) => r == Err::<u64, Errno>(e) && final(self).dev@ == old(self).dev@,
                Ok(None) => r == Err::<u64, Errno>(Errno::ENOSPC) && final(self).dev@ == old(self).dev@,
                Ok(Some(p)) => {
                    &&& r is Ok ==> r == Ok::<u64, Errno>((p.0 * old(self).blocks_per_group
                        + old(self).first_data_block + p.1) as u64) && block_taken(*old(self), *final(self), p.0, p.1,
                        p.0 * old(self).blocks_per_group + old(self).first_data_block + p.1)
                    &&& (block_bitmap_read(*old(self), p.0) matches Ok(bm) && alloc_apart(*old(self), p.0, bm.0 as int,
                        p.0 * old(self).blocks_per_group + old(self).first_data_block + p.1)
                        && take_writable(*old(self), bm.1, p.0 * old(self).blocks_per_group + old(self).first_data_block + p.1))
                        ==> r is Ok
                },
            },
    {
        let mut group: u32 = 0;
        while group < self.groups_count
            invariant
                self.wf(),
                *self == *old(self),
                block_alloc_scan(*self, 0) == block_alloc_scan(*self, group as int),
            decreases self.groups_count - group,
        {
            let mut gd = self.read_group_desc(group)?;
            if gd.free_blocks_count == 0 {
                group += 1;
                continue;
            }
            let mut bitmap = self.read_block_bitmap(group)?;
            let ghost bm = bitmap.raw@;
            let mut bit: u32 = 0;
            while bit < self.blocks_per_group
                invariant
                    self.wf(),
                    *self == *old(self),
                    gd.wf(),
                    group < self.groups_count,
                    bitmap.raw@ == bm,
                    block_bitmap_read(*self, group as int) matches Ok(b) && b.1 == bm,
                    block_bitmap_read(*self, group as int) == Ok::<(u64, Seq<u8>), Errno>((bitmap.pblk, bm)),
                    gd_read_result(*self, group as int) matches Ok(raw) && gd_wide16(raw, self.desc_size as int,
                        GD_FREE_BLOCKS_LO_OFF as int, GD_FREE_BLOCKS_HI_OFF as int) != 0,
                    gd.free_blocks_count as int == gd_free_blocks(*self, group as int),
                    gd.block_bitmap == bitmap.pblk,
                    gd.raw_len == self.desc_size,
                    block_alloc_scan(*self, 0) == block_alloc_scan(*self, group as int),
                    first_free_block_bit(*self, group as int, bm, 0) == first_free_block_bit(*self, group as int, bm, bit as int),
                decreases self.blocks_per_group - bit,
            {
                proof {
                    assert(group as int * self.blocks_per_group as int <= 0xFFFF_FFFF * 0xFFFF_FFFF) by (nonlinear_arith)
                        requires
                            group <= 0xFFFF_FFFFu32,
                            self.blocks_per_group <= 0xFFFF_FFFFu32,
                    ;
                }
                let first = self.group_first_block(group)?;
                let pblk = match first.checked_add(bit as u64) {
                    Some(p) => p,
                    None => return Err(Errno::EINVAL),
                };
                if pblk >= self.blocks_count || test_bit(&bitmap, bit) {
                    bit += 1;
                    continue;
                }
                assert(first_free_block_bit(*self, group as int, bm, bit as int) == Some(bit as int));
                let ghost s0 = *self;
                let ghost v = gd.free_blocks_count as int;
                set_bit(&mut bitmap, bit);
                proof {
                    super::io::lemma_div_self(s0.block_size as int);
                    assert(block_read(s0, gd_location(s0, group as int).0 as int) is Ok);
                }
                self.write_block_bitmap(group, &mut gd, &bitmap)?;
                let ghost s1 = *self;
                gd.free_blocks_count = match gd.free_blocks_count.checked_sub(1) {
                    Some(v) => v,
                    None => return Err(Errno::EIO),
                };
                self.write_group_desc(group, &mut gd)?;
                let ghost s2 = *self;
                proof {
                    let p = bitmap.pblk as int;
                    let gdb = gd_location(s0, group as int).0 as int;
                    if alloc_apart(s0, group as int, p, pblk as int) && sb_rewritable(s0) {
                        lemma_frame_trans(s0, s0.dev@, s1.dev@, s2.dev@, set![p, gdb], set![gdb]);
                        lemma_frame_sb(s0, s0.dev@, s2.dev@, set![p, gdb].union(set![gdb]));
                    }
                }
                self.dec_superblock_free_blocks()?;
                let ghost pre = *self;
                proof {
                    assert(block_read(pre, pblk as int) is Ok <==> block_read(s0, pblk as int) is Ok);
                }
                self.zero_fs_block(pblk)?;
                proof {
                    lemma_read_back(pre, *self, pblk as int, zero_block(pre));
                    lemma_block_taken(s0, s1, s2, pre, *self, group as int, bit as int, pblk as int, bitmap.pblk, bm,
                        bitmap.raw@, gd.raw@.subrange(0, s0.desc_size as int), gd.free_blocks_count as int, v);
                }
                return Ok(pblk);
            }
            assert(first_free_block_bit(*self, group as int, bm, bit as int) == None::<int>);
            group += 1;
        }
        Err(Errno::ENOSPC)
    }

    /// Returns block `pblk` to its group: clears its bitmap bit and raises the group and
    /// superblock free counts; `EIO` when the bit is already clear.
    pub fn free_block(&mut self, pblk: u64) -> (r: SysResult<()>)
        requires
            old(self).wf(),
        ensures
            free_block_outcome(*old(self), *final(self), pblk, r),
    {
        let (group, bit) = self.block_group_bit(pblk)?;
        let mut gd = match self.read_group_desc(group) {
            Ok(g) => g,
            Err(e) => {
                assert(block_bitmap_read(*self, group as int) == Err::<(u64, Seq<u8>), Errno>(e));
                return Err(e);
            },
        };
        let mut bitmap = self.read_block_bitmap(group)?;
        if !test_bit(&bitmap, bit) {
            return Err(Errno::EIO);
        }
        let ghost s0 = *self;
        let ghost gd0 = gd;
        clear_bit(&mut bitmap, bit);
        proof {
            super::io::lemma_div_self(s0.block_size as int);
            assert(block_read(s0, gd_location(s0, group as int).0 as int) is Ok);
        }
        self.write_block_bitmap(group, &mut gd, &bitmap)?;
        let ghost s1 = *self;
        gd.free_blocks_count = match gd.free_blocks_count.checked_add(1) {
            Some(v) => v,
            None => return Err(Errno::EIO),
        };
        self.write_group_desc(group, &mut gd)?;
        let ghost s2 = *self;
        let r = self.inc_superblock_free_blocks();
        proof {
            let p = bitmap.pblk as int;
            let gdb = gd_location(s0, group as int).0 as int;
            let sbb = sb_block(s0);
            if meta_apart(s0, group as int, p) && sb_rewritable(s0) {
                lemma_frame_trans(s0, s0.dev@, s1.dev@, s2.dev@, set![p, gdb], set![gdb]);
                lemma_frame_sb(s0, s0.dev@, s2.dev@, set![p, gdb].union(set![gdb]));
            }
            if r is Ok && meta_apart(s0, group as int, p) {
                lemma_frame_block_read(s1, s2, p, set![gdb]);
                lemma_frame_block_read(s2, *self, p, set![sbb]);
                lemma_frame_block_read(s2, *self, gdb, set![sbb]);
                assert(gd_read_result(*self, group as int) == gd_read_result(s2, group as int));
                lemma_frame_trans(s0, s0.dev@, s1.dev@, s2.dev@, set![p, gdb], set![gdb]);
                lemma_frame_sb(s0, s0.dev@, s2.dev@, set![p, gdb].union(set![gdb]));
            }
        }
        r
    }

    /// Zeroes the record of inode `ino` in the inode table.
    pub fn zero_inode_record(&mut self, ino: u32) -> (r: SysResult<()>)
        requires
            old(self).wf(),
        ensures
            final(self).unchanged_but_dev(*old(self)),
            r is Ok ==> inode_stored(*old(self), *final(self), ino, Seq::new(old(self).inode_size as nat, |i: int| 0u8)),
            r is Err ==> final(self).dev@ == old(self).dev@,
            r is Ok <==> record_zeroable(*old(self), ino),
    {
        let (table_block, off_in_block) = self.inode_location(ino)?;
        let mut block = self.read_fs_block(table_block)?;
        let inode_size = self.inode_size as usize;
        let end = off_in_block + inode_size;
        if end > block.len() {
            return Err(Errno::EIO);
        }
        let ghost b0 = block@;
        fill_zero(&mut block, off_in_block, end);
        proof {
            assert(Seq::new((end - off_in_block) as nat, |i: int| 0u8) =~= Seq::new(self.inode_size as nat, |i: int| 0u8));
            super::io::lemma_div_self(self.block_size as int);
        }
        self.write_fs_block(table_block, block.as_slice())
    }

    /// Takes the first free inode of the first group with free inodes: marks it in the bitmap
    /// and the group (as initialised, and as a directory when `is_dir`), lowers the superblock
    /// count, zeroes its record and gives its number; `ENOSPC` when none is free.
    pub fn alloc_inode(&mut self, is_dir: bool) -> (r: SysResult<u32>)
        requires
            old(self).wf(),
        ensures
            final(self).unchanged_but_dev(*old(self)),
            r matches Ok(ino) ==> ino > 0 && (ino - 1) / (old(self).inodes_per_group as int) < old(self).groups_count,
            match inode_alloc_scan(*old(self), 0) {
                Err(e) => r == Err::<u32, Errno>(e) && final(self).dev@ == old(self).dev@,
                Ok(None) => r == Err::<u32, Errno>(Errno::ENOSPC) && final(self).dev@ == old(self).dev@,
                Ok(Some(p)) => {
                    &&& r is Ok ==> r == Ok::<u32, Errno>((p.0 * old(self).inodes_per_group + p.1 + 1) as u32)
                        && inode_taken(*old(self), *final(self), p.0, p.1, is_dir, (p.0 * old(self).inodes_per_group + p.1 + 1) as u32)
                    &&& (inode_bitmap_read(*old(self), p.0) matches Ok(bm)
                        && inode_location_result(*old(self), (p.0 * old(self).inodes_per_group + p.1 + 1) as u32) matches Ok(loc)
                        && alloc_apart(*old(self), p.0, bm.0 as int, loc.0 as int)
                        && inode_take_writable(*old(self), p.0, p.1, bm.1, p.0 * old(self).inodes_per_group + p.1 + 1, is_dir))
                        ==> r is Ok
                },
            },
    {
        let mut group: u32 = 0;
        while group < self.groups_count
            invariant
                self.wf(),
                *self == *old(self),
                inode_alloc_scan(*self, 0) == inode_alloc_scan(*self, group as int),
            decreases self.groups_count - group,
        {
            let mut gd = self.read_group_desc(group)?;
            if gd.free_inodes_count == 0 {
                group += 1;
                continue;
            }
            let mut bitmap = self.read_inode_bitmap(group)?;
            let ghost bm = bitmap.raw@;
            let mut bit: u32 = 0;
            while bit < self.inodes_per_group
                invariant
                    self.wf(),
                    *self == *old(self),
                    gd.wf(),
                    group < self.groups_count,
                    bitmap.raw@ == bm,
                    inode_bitmap_read(*self, group as int) matches Ok(b) && b.1 == bm,
                    inode_bitmap_read(*self, group as int) == Ok::<(u64, Seq<u8>), Errno>((bitmap.pblk, bm)),
                    gd_read_result(*self, group as int) matches Ok(raw) && gd_wide16(raw, self.desc_size as int,
                        GD_FREE_INODES_LO_OFF as int, GD_FREE_INODES_HI_OFF as int) != 0,
                    gd.free_inodes_count as int == gd_free_inodes(*self, group as int),
                    gd.used_dirs_count as int == gd_used_dirs(*self, group as int),
                    gd.inode_table_first_block as int == gd_inode_table(*self, group as int),
                    gd.itable_unused as int == gd_itable_unused(*self, group as int),
                    gd.inode_bitmap == bitmap.pblk,
                    gd.raw_len == self.desc_size,
                    inode_alloc_scan(*self, 0) == inode_alloc_scan(*self, group as int),
                    first_free_inode_bit(*self, bm, 0) == first_free_inode_bit(*self, bm, bit as int),
                decreases self.inodes_per_group - bit,
            {
                if test_bit(&bitmap, bit) {
                    bit += 1;
                    continue;
                }
                assert(first_free_inode_bit(*self, bm, bit as int) == Some(bit as int));
                let ghost s0 = *self;
                let ghost vfi = gd.free_inodes_count as int;
                let ghost vud = gd.used_dirs_count as int;
                set_bit(&mut bitmap, bit);
                proof {
                    super::io::lemma_div_self(s0.block_size as int);
                    assert(block_read(s0, gd_location(s0, group as int).0 as int) is Ok);
                }
                self.write_inode_bitmap(group, &mut gd, &bitmap)?;
                let ghost s1 = *self;
                gd.free_inodes_count = match gd.free_inodes_count.checked_sub(1) {
                    Some(v) => v,
                    None => return Err(Errno::EIO),
                };
                if is_dir {
                    gd.used_dirs_count = match gd.used_dirs_count.checked_add(1) {
                        Some(v) => v,
                        None => return Err(Errno::EIO),
                    };
                }
                let ghost flags_before = gd.flags;
                self.mark_inode_initialized(&mut gd, bit)?;
                proof {
                    let f = gd.flags;
                    assert(f == flags_before & !EXT4_BG_INODE_UNINIT);
                    assert((flags_before & !0x0001u16) & 0x0001u16 == 0) by (bit_vector);
                }
                self.write_group_desc(group, &mut gd)?;
                let ghost s2 = *self;
                proof {
                    let p = bitmap.pblk as int;
                    let gdb = gd_location(s0, group as int).0 as int;
                    if meta_apart(s0, group as int, p) && sb_rewritable(s0) {
                        lemma_frame_trans(s0, s0.dev@, s1.dev@, s2.dev@, set![p, gdb], set![gdb]);
                        lemma_frame_sb(s0, s0.dev@, s2.dev@, set![p, gdb].union(set![gdb]));
                    }
                }
                self.dec_superblock_free_inodes()?;
                let ghost s3 = *self;
                let ino = match group.checked_mul(self.inodes_per_group) {
                    Some(v) => match v.checked_add(bit) {
                        Some(w) => match w.checked_add(1) {
                            Some(x) => x,
                            None => return Err(Errno::EINVAL),
                        },
                        None => return Err(Errno::EINVAL),
                    },
                    None => return Err(Errno::EINVAL),
                };
                assert((ino - 1) / (self.inodes_per_group as int) == group) by (nonlinear_arith)
                    requires
                        ino == group * self.inodes_per_group + bit + 1,
                        bit < self.inodes_per_group,
                ;
                proof {
                    let p = bitmap.pblk as int;
                    let gdb = gd_location(s0, group as int).0 as int;
                    let sbb = sb_block(s0);
                    if gdb != sbb {
                        lemma_frame_block_read(s2, s3, gdb, set![sbb]);
                        assert(gd_read_result(s3, group as int) == gd_read_result(s2, group as int));
                        lemma_location_kept(s0, s3, group as int, ino, gd.raw@.subrange(0, s0.desc_size as int));
                    }
                }
                self.zero_inode_record(ino)?;
                proof {
                    lemma_inode_taken(s0, s1, s2, s3, *self, group as int, bit as int, ino, bitmap.pblk, bm, bitmap.raw@,
                        gd.raw@.subrange(0, s0.desc_size as int), gd.free_inodes_count as int, gd.used_dirs_count as int,
                        vfi, vud, is_dir, gd.flags, gd.itable_unused as int);
                }
                return Ok(ino);
            }
            assert(first_free_inode_bit(*self, bm, bit as int) == None::<int>);
            group += 1;
        }
        Err(Errno::ENOSPC)
    }
}

/// The 60-byte block map of an inode with an empty extent tree.
pub open spec fn empty_root_bytes() -> Seq<u8> {
    Seq::new(INODE_BLOCK_ARRAY_SIZE as nat, |i: int|
        if i == 0 { 0x0Au8 } else if i == 1 { 0xF3u8 } else if i == 4 { ROOT_EXTENT_MAX as u8 } else { 0u8 })
}

/// What updating the inode's 512-byte sector count gives after its extents change from `old`
/// (with `old_ext` tree blocks) to `new`, or the error.
pub open spec fn i_blocks_after(c: Context, i_blocks: u64, old: Seq<ExtentLeaf>, old_ext: int, new: Seq<ExtentLeaf>) -> Result<u64, Errno> {
    let per = (c.block_size - EXTENT_HEADER_SIZE) / (EXTENT_ENTRY_SIZE as int);
    let spb = c.block_size as int / 512;
    if sum_len(old) > u64::MAX || sum_len(old) + old_ext > u64::MAX {
        Err(Errno::EINVAL)
    } else if external_blocks(new.len() as int, per) > u64::MAX {
        Err(Errno::EINVAL)
    } else if sum_len(new) > u64::MAX || sum_len(new) + external_blocks(new.len() as int, per) > u64::MAX {
        Err(Errno::EINVAL)
    } else {
        let o = sum_len(old) + old_ext;
        let n = sum_len(new) + external_blocks(new.len() as int, per);
        if n >= o {
            if (n - o) * spb > u64::MAX || i_blocks + (n - o) * spb > u64::MAX {
                Err(Errno::EINVAL)
            } else {
                Ok((i_blocks + (n - o) * spb) as u64)
            }
        } else {
            if (o - n) * spb > u64::MAX || i_blocks - (o - n) * spb < 0 {
                Err(Errno::EINVAL)
            } else {
                Ok((i_blocks - (o - n) * spb) as u64)
            }
        }
    }
}

impl Context {
    /// Returns inode `ino` to its group: clears its bitmap bit, raises the group's free count
    /// (and lowers its directory count when `was_dir`) and the superblock's free count;
    /// `EINVAL` for inode 0, `EIO` when the bit is already clear.
    #[verifier::spinoff_prover]
    #[verifier::rlimit(80)]
    pub fn free_inode_bit(&mut self, ino: u32, was_dir: bool) -> (r: SysResult<()>)
        requires
            old(self).wf(),
        ensures
            final(self).unchanged_but_dev(*old(self)),
            ino == 0 ==> r == Err::<(), Errno>(Errno::EINVAL) && final(self).dev@ == old(self).dev@,
            ino != 0 ==> match inode_bitmap_read(*old(self), (ino - 1) / (old(self).inodes_per_group as int)) {
                Err(e) => r == Err::<(), Errno>(e) && final(self).dev@ == old(self).dev@,
                Ok(bm) => if !bit_of(bm.1, (ino - 1) % (old(self).inodes_per_group as int)) {
                    r == Err::<(), Errno>(Errno::EIO) && final(self).dev@ == old(self).dev@
                } else {
                    &&& meta_apart(*old(self), (ino - 1) / (old(self).inodes_per_group as int), bm.0 as int)
                        && inode_return_writable(*old(self), (ino - 1) / (old(self).inodes_per_group as int), bm.1, was_dir)
                        ==> r is Ok
                    &&& r is Ok && meta_apart(*old(self), (ino - 1) / (old(self).inodes_per_group as int), bm.0 as int) ==>
                        inode_returned(*old(self), *final(self), (ino - 1) / (old(self).inodes_per_group as int),
                            (ino - 1) % (old(self).inodes_per_group as int), bm, was_dir)
                },
            },
    {
        if ino == 0 {
            return Err(Errno::EINVAL);
        }
        let idx = ino - 1;
        let group = idx / self.inodes_per_group;
        let bit = idx % self.inodes_per_group;
        let mut gd = match self.read_group_desc(group) {
            Ok(g) => g,
            Err(e) => {
                assert(inode_bitmap_read(*self, group as int) == Err::<(u64, Seq<u8>), Errno>(e));
                return Err(e);
            },
        };
        let mut bitmap = self.read_inode_bitmap(group)?;
        if !test_bit(&bitmap, bit) {
            return Err(Errno::EIO);
        }
        let ghost s0 = *self;
        let ghost bm0 = bitmap.raw@;
        let ghost vfi = gd.free_inodes_count as int;
        let ghost vud = gd.used_dirs_count as int;
        clear_bit(&mut bitmap, bit);
        proof {
            super::io::lemma_div_self(s0.block_size as int);
            assert(block_read(s0, gd_location(s0, group as int).0 as int) is Ok);
        }
        self.write_inode_bitmap(group, &mut gd, &bitmap)?;
        let ghost s1 = *self;
        gd.free_inodes_count = match gd.free_inodes_count.checked_add(1) {
            Some(v) => v,
            None => return Err(Errno::EIO),
        };
        if was_dir {
            gd.used_dirs_count = match gd.used_dirs_count.checked_sub(1) {
                Some(v) => v,
                None => return Err(Errno::EIO),
            };
        }
        self.write_group_desc(group, &mut gd)?;
        let ghost s2 = *self;
        proof {
            let p = bitmap.pblk as int;
            let gdb = gd_location(s0, group as int).0 as int;
            if meta_apart(s0, group as int, p) && sb_rewritable(s0) {
                lemma_frame_trans(s0, s0.dev@, s1.dev@, s2.dev@, set![p, gdb], set![gdb]);
                lemma_frame_sb(s0, s0.dev@, s2.dev@, set![p, gdb].union(set![gdb]));
            }
        }
        let r = self.inc_superblock_free_inodes();
        proof {
            if r is Ok {
                lemma_inode_returned(s0, s1, s2, *self, group as int, bit as int, bitmap.pblk, bm0, bitmap.raw@,
                    gd.raw@.subrange(0, s0.desc_size as int), gd.free_inodes_count as int, gd.used_dirs_count as int,
                    vfi, vud, was_dir);
            }
        }
        r
    }

    /// Gives the inode an empty extent tree: a root header with room for four extents.
    pub fn init_empty_extent_root(&self, inode: &mut Ext4Inode) -> (r: SysResult<()>)
        requires
            old(inode).raw@.len() >= INODE_BLOCK_ARRAY_OFF + INODE_BLOCK_ARRAY_SIZE,
        ensures
            r is Ok,
            final(inode).raw@ == splice(old(inode).raw@, INODE_BLOCK_ARRAY_OFF as int, empty_root_bytes()),
            *final(inode) == (Ext4Inode { raw: final(inode).raw, ..*old(inode) }),
    {
        let start = INODE_BLOCK_ARRAY_OFF;
        let ghost r0 = inode.raw@;
        fill_zero(&mut inode.raw, start, start + INODE_BLOCK_ARRAY_SIZE);
        write_u16(&mut inode.raw, start, EXT4_EXTENT_MAGIC);
        write_u16(&mut inode.raw, start + 2, 0);
        write_u16(&mut inode.raw, start + 4, ROOT_EXTENT_MAX);
        write_u16(&mut inode.raw, start + 6, 0);
        write_u32(&mut inode.raw, start + 8, 0);
        assert(inode.raw@ =~= splice(r0, INODE_BLOCK_ARRAY_OFF as int, empty_root_bytes()));
        Ok(())
    }

    /// A fresh in-memory inode record: the given mode, owner and link count, extent-mapped with
    /// an empty tree, everything else zero but the extra inode size.
    pub fn new_inode(&self, ino: u32, mode: u16, uid: u16, gid: u16, links: u16) -> (r: SysResult<Ext4Inode>)
        requires
            self.wf(),
        ensures
            match r {
                Ok(i) => i.ino == ino && i.i_mode == mode && i.i_uid == uid && i.i_gid == gid && i.i_links_count == links
                    && i.i_atime == 0 && i.i_ctime == 0 && i.i_mtime == 0 && i.i_size == 0 && i.i_blocks == 0
                    && i.i_flags == INODE_FLAG_EXTENTS && i.i_generation == 0 && i.i_file_acl == 0
                    && i.i_extra_isize == (if self.inode_size <= 128 { 0 } else if self.inode_size - 128 < DEFAULT_EXTRA_ISIZE {
                        self.inode_size - 128 } else { DEFAULT_EXTRA_ISIZE as int })
                    && i.raw@ == splice(Seq::new(self.inode_size as nat, |k: int| 0u8), INODE_BLOCK_ARRAY_OFF as int, empty_root_bytes()),
                Err(_) => false,
            },
    {
        let raw: Vec<u8> = vec![0u8; self.inode_size as usize];
        assert(raw@ =~= Seq::new(self.inode_size as nat, |k: int| 0u8));
        let mut inode = Ext4Inode {
            raw,
            ino,
            i_mode: mode,
            i_uid: uid,
            i_gid: gid,
            i_links_count: links,
            i_atime: 0,
            i_ctime: 0,
            i_mtime: 0,
            i_size: 0,
            i_blocks: 0,
            i_flags: INODE_FLAG_EXTENTS,
            i_generation: 0,
            i_file_acl: 0,
            i_extra_isize: self.default_extra_isize(),
        };
        self.init_empty_extent_root(&mut inode)?;
        Ok(inode)
    }

    /// Maps logical block `lblk` to physical block `pblk` in a list of leaves.
    pub fn insert_extent_mapping(&self, extents: &mut Vec<ExtentLeaf>, lblk: u32, pblk: u64) -> (r: SysResult<()>)
        ensures
            validate_from(old(extents)@, None) is Err ==> r == validate_from(old(extents)@, None) && final(extents)@ == old(extents)@,
            validate_from(old(extents)@, None) is Ok && mapped(old(extents)@, lblk as int) ==> r == Err::<(), Errno>(Errno::EEXIST)
                && final(extents)@ == old(extents)@,
            validate_from(old(extents)@, None) is Ok && !mapped(old(extents)@, lblk as int) ==> {
                &&& r is Ok || r == Err::<(), Errno>(Errno::EINVAL)
                &&& pends_bounded(old(extents)@) && pblk < u64::MAX ==> r is Ok && pends_bounded(final(extents)@)
                &&& forall|l: int, p: int| maps_to(final(extents)@, l, p) <==> (maps_to(old(extents)@, l, p) || (l == lblk && p == pblk))
                &&& lblk < u32::MAX ==> valid_extents(final(extents)@)
                &&& r is Ok ==> leaves_merged(final(extents)@)
            },
    {
        insert_extent_leaf(extents, lblk, pblk)
    }

    /// Moves the inode's sector count by the change in data and tree blocks between the old and
    /// new extent lists; an inode without extents gets a count of zero.
    pub fn update_i_blocks_from_extent_delta(&self, inode: &mut Ext4Inode, old_extents: &[ExtentLeaf],
        old_external_extent_blocks: usize, new_extents: &[ExtentLeaf]) -> (r: SysResult<()>)
        requires
            self.wf(),
        ensures
            !has_bits(old(inode).i_flags, INODE_FLAG_EXTENTS) ==> r is Ok && *final(inode) == (Ext4Inode { i_blocks: 0, ..*old(inode) }),
            has_bits(old(inode).i_flags, INODE_FLAG_EXTENTS) ==> match i_blocks_after(*self, old(inode).i_blocks, old_extents@,
                old_external_extent_blocks as int, new_extents@) {
                Ok(b) => r is Ok && *final(inode) == (Ext4Inode { i_blocks: b, ..*old(inode) }),
                Err(e) => r == Err::<(), Errno>(e) && *final(inode) == *old(inode),
            },
    {
        if !flags_contain(inode.i_flags, INODE_FLAG_EXTENTS) {
            inode.i_blocks = 0;
            return Ok(());
        }
        let old_data = extent_data_blocks(old_extents)?;
        let old_ext = old_external_extent_blocks as u64;
        assert(old_ext as int == old_external_extent_blocks as int);
        assert(old_data as int == sum_len(old_extents@));
        let old_fs_blocks = match old_data.checked_add(old_ext) {
            Some(v) => v,
            None => return Err(Errno::EINVAL),
        };
        let new_external = self.external_extent_block_count_for_extent_count(new_extents.len())?;
        let new_data = extent_data_blocks(new_extents)?;
        assert(new_data as int == sum_len(new_extents@));
        let new_fs_blocks = match new_data.checked_add(new_external) {
            Some(v) => v,
            None => return Err(Errno::EINVAL),
        };
        let sectors_per_fs_block = (self.block_size / 512) as u64;
        if new_fs_blocks >= old_fs_blocks {
            let delta = match (new_fs_blocks - old_fs_blocks).checked_mul(sectors_per_fs_block) {
                Some(d) => d,
                None => return Err(Errno::EINVAL),
            };
            inode.i_blocks = match inode.i_blocks.checked_add(delta) {
                Some(b) => b,
                None => return Err(Errno::EINVAL),
            };
        } else {
            let delta = match (old_fs_blocks - new_fs_blocks).checked_mul(sectors_per_fs_block) {
                Some(d) => d,
                None => return Err(Errno::EINVAL),
            };
            inode.i_blocks = match inode.i_blocks.checked_sub(delta) {
                Some(b) => b,
                None => return Err(Errno::EINVAL),
            };
        }
        Ok(())
    }
}

} // verus!
