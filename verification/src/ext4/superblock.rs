//! Superblock fields, mount-time validation and superblock I/O.
use vstd::prelude::*;
use crate::blockdev::BlockDevice;
use crate::bytes::{le16, le32, put32, get_u8, get_u16_le, get_u32_le, put_u32_le, copy_range};
use crate::crc::{crc32c, crc32c_update, CRC32C_INIT};
use crate::errno::{Errno, SysResult};
use crate::uapi::Statfs;
use super::ctx::Context;
use super::defs::{
    has_bits, flags_contain, Ext4Superblock, EXT4_SUPERBLOCK_OFFSET, EXT4_SUPERBLOCK_SIZE, EXT4_SUPER_MAGIC,
    EXT4_CHECKSUM_CRC32C, EXT4_MAX_NAME_LEN, SUPPORTED_INCOMPAT, SUPPORTED_RO_COMPAT, RO_COMPAT_METADATA_CSUM,
    RO_COMPAT_SPARSE_SUPER, INCOMPAT_CSUM_SEED, SB_MAGIC_OFF, SB_INODES_COUNT_OFF, SB_LOG_BLOCK_SIZE_OFF,
    SB_BLOCKS_COUNT_LO_OFF, SB_BLOCKS_COUNT_HI_OFF, SB_FREE_BLOCKS_COUNT_LO_OFF, SB_FREE_INODES_COUNT_OFF,
    SB_FREE_BLOCKS_COUNT_HI_OFF, SB_FIRST_DATA_BLOCK_OFF, SB_BLOCKS_PER_GROUP_OFF, SB_INODES_PER_GROUP_OFF,
    SB_INODE_SIZE_OFF, SB_DESC_SIZE_OFF, SB_FEATURE_COMPAT_OFF, SB_FEATURE_INCOMPAT_OFF, SB_FEATURE_RO_COMPAT_OFF,
    SB_UUID_OFF, SB_HASH_SEED_OFF, SB_FLAGS_OFF, SB_CHECKSUM_TYPE_OFF, SB_CHECKSUM_SEED_OFF, SB_CHECKSUM_OFF,
    SB_FIRST_META_BG_OFF,
};

verus! {

/// The superblock bytes of a device image.
pub open spec fn sb_bytes(dev: Seq<u8>) -> Seq<u8> {
    dev.subrange(EXT4_SUPERBLOCK_OFFSET as int, (EXT4_SUPERBLOCK_OFFSET + EXT4_SUPERBLOCK_SIZE) as int)
}

/// Whether the stored superblock checksum matches its contents.
pub open spec fn sb_checksum_ok(raw: Seq<u8>) -> bool {
    le32(raw, SB_CHECKSUM_OFF as int) == crc32c(CRC32C_INIT, raw.subrange(0, SB_CHECKSUM_OFF as int)) as int
}

/// `raw` with its checksum field recomputed.
pub open spec fn sb_with_checksum(raw: Seq<u8>) -> Seq<u8> {
    let zeroed = put32(raw, SB_CHECKSUM_OFF as int, 0);
    put32(zeroed, SB_CHECKSUM_OFF as int, crc32c(CRC32C_INIT, zeroed.subrange(0, SB_CHECKSUM_OFF as int)) as int)
}

/// Block size for a `log_block_size` field, zero when out of range.
pub open spec fn block_size_for_log(log: int) -> u32 {
    if log == 0 { 1024 }
    else if log == 1 { 2048 }
    else if log == 2 { 4096 }
    else if log == 3 { 8192 }
    else if log == 4 { 16384 }
    else if log == 5 { 32768 }
    else if log == 6 { 65536 }
    else { 0 }
}

/// Descriptor size after raising small values to the 32-byte minimum.
pub open spec fn effective_desc_size(raw: Seq<u8>) -> int {
    if le16(raw, SB_DESC_SIZE_OFF as int) < 32 { 32 } else { le16(raw, SB_DESC_SIZE_OFF as int) }
}

/// Number of block groups covering `blocks` blocks.
pub open spec fn groups_for(blocks: int, per_group: int) -> int {
    (blocks + per_group - 1) / per_group
}

/// The error mounting refuses a superblock with, in the order checks are made; `None` mounts.
pub open spec fn mount_error(raw: Seq<u8>) -> Option<Errno> {
    let incompat = le32(raw, SB_FEATURE_INCOMPAT_OFF as int) as u32;
    let ro_compat = le32(raw, SB_FEATURE_RO_COMPAT_OFF as int) as u32;
    let csum = has_bits(ro_compat, RO_COMPAT_METADATA_CSUM);
    let log = le32(raw, SB_LOG_BLOCK_SIZE_OFF as int);
    let bs = block_size_for_log(log);
    let inode_size = le16(raw, SB_INODE_SIZE_OFF as int);
    let desc = effective_desc_size(raw);
    let blocks = le32(raw, SB_BLOCKS_COUNT_LO_OFF as int) + le32(raw, SB_BLOCKS_COUNT_HI_OFF as int) * 0x1_0000_0000;
    let bpg = le32(raw, SB_BLOCKS_PER_GROUP_OFF as int);
    if le16(raw, SB_MAGIC_OFF as int) != EXT4_SUPER_MAGIC {
        Some(Errno::EIO)
    } else if !has_bits(SUPPORTED_INCOMPAT, incompat) {
        Some(Errno::EOPNOTSUPP)
    } else if !has_bits(SUPPORTED_RO_COMPAT, ro_compat) {
        Some(Errno::EOPNOTSUPP)
    } else if csum && raw[SB_CHECKSUM_TYPE_OFF as int] != EXT4_CHECKSUM_CRC32C {
        Some(Errno::EIO)
    } else if csum && !sb_checksum_ok(raw) {
        Some(Errno::EIO)
    } else if log > 6 {
        Some(Errno::EINVAL)
    } else if bpg == 0 || le32(raw, SB_INODES_PER_GROUP_OFF as int) == 0 {
        Some(Errno::EINVAL)
    } else if inode_size < 128 || inode_size > (bs as int % 0x10000) {
        Some(Errno::EINVAL)
    } else if desc > 64 || desc % 4 != 0 {
        Some(Errno::EINVAL)
    } else if blocks == 0 {
        Some(Errno::EINVAL)
    } else if blocks + bpg - 1 > u64::MAX || groups_for(blocks, bpg) > u32::MAX {
        Some(Errno::EINVAL)
    } else {
        None
    }
}

/// The checksum seed a superblock selects.
pub open spec fn checksum_seed_of(raw: Seq<u8>) -> u32 {
    if has_bits(le32(raw, SB_FEATURE_INCOMPAT_OFF as int) as u32, INCOMPAT_CSUM_SEED) {
        le32(raw, SB_CHECKSUM_SEED_OFF as int) as u32
    } else {
        crc32c(CRC32C_INIT, raw.subrange(SB_UUID_OFF as int, SB_UUID_OFF + 16))
    }
}

/// The context fields a mountable superblock yields.
pub open spec fn mounted_from(c: Context, fsno: u32, raw: Seq<u8>) -> bool {
    let bpg = le32(raw, SB_BLOCKS_PER_GROUP_OFF as int);
    let blocks = le32(raw, SB_BLOCKS_COUNT_LO_OFF as int) + le32(raw, SB_BLOCKS_COUNT_HI_OFF as int) * 0x1_0000_0000;
    &&& c.fsno == fsno
    &&& c.uuid@ == raw.subrange(SB_UUID_OFF as int, SB_UUID_OFF + 16)
    &&& c.checksum_seed == checksum_seed_of(raw)
    &&& c.metadata_csum == has_bits(le32(raw, SB_FEATURE_RO_COMPAT_OFF as int) as u32, RO_COMPAT_METADATA_CSUM)
    &&& c.block_size == block_size_for_log(le32(raw, SB_LOG_BLOCK_SIZE_OFF as int))
    &&& c.blocks_count == blocks
    &&& c.first_data_block == le32(raw, SB_FIRST_DATA_BLOCK_OFF as int)
    &&& c.blocks_per_group == bpg
    &&& c.inodes_per_group == le32(raw, SB_INODES_PER_GROUP_OFF as int)
    &&& c.inode_size == le16(raw, SB_INODE_SIZE_OFF as int)
    &&& c.desc_size == effective_desc_size(raw)
    &&& c.groups_count == groups_for(blocks, bpg)
    &&& c.feature_compat == le32(raw, SB_FEATURE_COMPAT_OFF as int)
    &&& c.feature_incompat == le32(raw, SB_FEATURE_INCOMPAT_OFF as int)
    &&& c.feature_ro_compat == le32(raw, SB_FEATURE_RO_COMPAT_OFF as int)
    &&& c.flags == le32(raw, SB_FLAGS_OFF as int)
    &&& forall|i: int| 0 <= i < 4 ==> c.hash_seed@[i] == le32(raw, SB_HASH_SEED_OFF + 4 * i)
}

impl Ext4Superblock {
    /// The raw buffer holds a whole superblock.
    pub open spec fn wf(&self) -> bool {
        self.raw@.len() == EXT4_SUPERBLOCK_SIZE
    }

    /// Total inode count.
    pub fn inodes_count(&self) -> (r: SysResult<u32>)
        requires
            self.wf(),
        ensures
            r == Ok::<u32, Errno>(le32(self.raw@, SB_INODES_COUNT_OFF as int) as u32),
    {
        get_u32_le(self.raw.as_slice(), SB_INODES_COUNT_OFF)
    }

    /// Accepts `raw` when it carries the ext4 magic, else `EIO`.
    pub fn parse_raw(raw: Vec<u8>) -> (r: SysResult<Self>)
        requires
            raw@.len() == EXT4_SUPERBLOCK_SIZE,
        ensures
            match r {
                Ok(sb) => sb.raw@ == raw@ && le16(raw@, SB_MAGIC_OFF as int) == EXT4_SUPER_MAGIC,
                Err(e) => e == Errno::EIO && le16(raw@, SB_MAGIC_OFF as int) != EXT4_SUPER_MAGIC,
            },
    {
        let magic = get_u16_le(raw.as_slice(), SB_MAGIC_OFF)?;
        if magic != EXT4_SUPER_MAGIC {
            return Err(Errno::EIO);
        }
        Ok(Ext4Superblock { raw })
    }

    /// The `log_block_size` field.
    pub fn log_block_size(&self) -> (r: SysResult<u32>)
        requires
            self.wf(),
        ensures
            r == Ok::<u32, Errno>(le32(self.raw@, SB_LOG_BLOCK_SIZE_OFF as int) as u32),
    {
        get_u32_le(self.raw.as_slice(), SB_LOG_BLOCK_SIZE_OFF)
    }

    /// Total block count, from its low and high halves.
    pub fn blocks_count(&self) -> (r: SysResult<u64>)
        requires
            self.wf(),
        ensures
            r == Ok::<u64, Errno>((le32(self.raw@, SB_BLOCKS_COUNT_LO_OFF as int) + le32(
                self.raw@,
                SB_BLOCKS_COUNT_HI_OFF as int,
            ) * 0x1_0000_0000) as u64),
    {
        let lo = get_u32_le(self.raw.as_slice(), SB_BLOCKS_COUNT_LO_OFF)?;
        let hi = get_u32_le(self.raw.as_slice(), SB_BLOCKS_COUNT_HI_OFF)?;
        Ok(hi as u64 * 0x1_0000_0000 + lo as u64)
    }

    /// Free block count, from its low and high halves.
    pub fn free_blocks_count(&self) -> (r: SysResult<u64>)
        requires
            self.wf(),
        ensures
            r == Ok::<u64, Errno>(spec_free_blocks(self.raw@)),
    {
        let lo = get_u32_le(self.raw.as_slice(), SB_FREE_BLOCKS_COUNT_LO_OFF)?;
        let hi = get_u32_le(self.raw.as_slice(), SB_FREE_BLOCKS_COUNT_HI_OFF)?;
        Ok(hi as u64 * 0x1_0000_0000 + lo as u64)
    }

    /// Stores the free block count in its low and high halves.
    pub fn set_free_blocks_count(&mut self, count: u64) -> (r: SysResult<()>)
        requires
            old(self).wf(),
        ensures
            r is Ok,
            final(self).wf(),
            final(self).raw@ == put32(
                put32(old(self).raw@, SB_FREE_BLOCKS_COUNT_LO_OFF as int, count as int % 0x1_0000_0000),
                SB_FREE_BLOCKS_COUNT_HI_OFF as int,
                count as int / 0x1_0000_0000,
            ),
            spec_free_blocks(final(self).raw@) == count,
    {
        proof {
            crate::bytes::lemma_put32_get(old(self).raw@, SB_FREE_BLOCKS_COUNT_LO_OFF as int, count as int % 0x1_0000_0000);
        }
        put_u32_le(&mut self.raw, SB_FREE_BLOCKS_COUNT_LO_OFF, (count % 0x1_0000_0000) as u32)?;
        let ghost mid = self.raw@;
        proof {
            crate::bytes::lemma_put32_get(mid, SB_FREE_BLOCKS_COUNT_HI_OFF as int, count as int / 0x1_0000_0000);
        }
        put_u32_le(&mut self.raw, SB_FREE_BLOCKS_COUNT_HI_OFF, (count / 0x1_0000_0000) as u32)
    }

    /// Free inode count.
    pub fn free_inodes_count(&self) -> (r: SysResult<u32>)
        requires
            self.wf(),
        ensures
            r == Ok::<u32, Errno>(le32(self.raw@, SB_FREE_INODES_COUNT_OFF as int) as u32),
    {
        get_u32_le(self.raw.as_slice(), SB_FREE_INODES_COUNT_OFF)
    }

    /// Stores the free inode count.
    pub fn set_free_inodes_count(&mut self, count: u32) -> (r: SysResult<()>)
        requires
            old(self).wf(),
        ensures
            r is Ok,
            final(self).wf(),
            final(self).raw@ == put32(old(self).raw@, SB_FREE_INODES_COUNT_OFF as int, count as int),
            le32(final(self).raw@, SB_FREE_INODES_COUNT_OFF as int) == count,
    {
        proof {
            crate::bytes::lemma_put32_get(old(self).raw@, SB_FREE_INODES_COUNT_OFF as int, count as int);
        }
        put_u32_le(&mut self.raw, SB_FREE_INODES_COUNT_OFF, count)
    }

    /// First data block.
    pub fn first_data_block(&self) -> (r: SysResult<u32>)
        requires
            self.wf(),
        ensures
            r == Ok::<u32, Errno>(le32(self.raw@, SB_FIRST_DATA_BLOCK_OFF as int) as u32),
    {
        get_u32_le(self.raw.as_slice(), SB_FIRST_DATA_BLOCK_OFF)
    }

    /// Blocks per group.
    pub fn blocks_per_group(&self) -> (r: SysResult<u32>)
        requires
            self.wf(),
        ensures
            r == Ok::<u32, Errno>(le32(self.raw@, SB_BLOCKS_PER_GROUP_OFF as int) as u32),
    {
        get_u32_le(self.raw.as_slice(), SB_BLOCKS_PER_GROUP_OFF)
    }

    /// Inodes per group.
    pub fn inodes_per_group(&self) -> (r: SysResult<u32>)
        requires
            self.wf(),
        ensures
            r == Ok::<u32, Errno>(le32(self.raw@, SB_INODES_PER_GROUP_OFF as int) as u32),
    {
        get_u32_le(self.raw.as_slice(), SB_INODES_PER_GROUP_OFF)
    }

    /// Inode record size.
    pub fn inode_size(&self) -> (r: SysResult<u16>)
        requires
            self.wf(),
        ensures
            r == Ok::<u16, Errno>(le16(self.raw@, SB_INODE_SIZE_OFF as int) as u16),
    {
        get_u16_le(self.raw.as_slice(), SB_INODE_SIZE_OFF)
    }

    /// Group descriptor size as stored.
    pub fn desc_size(&self) -> (r: SysResult<u16>)
        requires
            self.wf(),
        ensures
            r == Ok::<u16, Errno>(le16(self.raw@, SB_DESC_SIZE_OFF as int) as u16),
    {
        get_u16_le(self.raw.as_slice(), SB_DESC_SIZE_OFF)
    }

    /// Compatible feature bits.
    pub fn feature_compat(&self) -> (r: SysResult<u32>)
        requires
            self.wf(),
        ensures
            r == Ok::<u32, Errno>(le32(self.raw@, SB_FEATURE_COMPAT_OFF as int) as u32),
    {
        get_u32_le(self.raw.as_slice(), SB_FEATURE_COMPAT_OFF)
    }

    /// Incompatible feature bits.
    pub fn feature_incompat(&self) -> (r: SysResult<u32>)
        requires
            self.wf(),
        ensures
            r == Ok::<u32, Errno>(le32(self.raw@, SB_FEATURE_INCOMPAT_OFF as int) as u32),
    {
        get_u32_le(self.raw.as_slice(), SB_FEATURE_INCOMPAT_OFF)
    }

    /// Read-only-compatible feature bits.
    pub fn feature_ro_compat(&self) -> (r: SysResult<u32>)
        requires
            self.wf(),
        ensures
            r == Ok::<u32, Errno>(le32(self.raw@, SB_FEATURE_RO_COMPAT_OFF as int) as u32),
    {
        get_u32_le(self.raw.as_slice(), SB_FEATURE_RO_COMPAT_OFF)
    }

    /// The filesystem UUID.
    pub fn uuid(&self) -> (r: SysResult<Vec<u8>>)
        requires
            self.wf(),
        ensures
            r is Ok,
            r matches Ok(u) ==> u@ == self.raw@.subrange(SB_UUID_OFF as int, SB_UUID_OFF + 16),
    {
        Ok(copy_range(self.raw.as_slice(), SB_UUID_OFF, SB_UUID_OFF + 16))
    }

    /// The checksum algorithm code.
    pub fn checksum_type(&self) -> (r: SysResult<u8>)
        requires
            self.wf(),
        ensures
            r == Ok::<u8, Errno>(self.raw@[SB_CHECKSUM_TYPE_OFF as int]),
    {
        get_u8(self.raw.as_slice(), SB_CHECKSUM_TYPE_OFF)
    }

    /// The stored checksum seed.
    pub fn checksum_seed(&self) -> (r: SysResult<u32>)
        requires
            self.wf(),
        ensures
            r == Ok::<u32, Errno>(le32(self.raw@, SB_CHECKSUM_SEED_OFF as int) as u32),
    {
        get_u32_le(self.raw.as_slice(), SB_CHECKSUM_SEED_OFF)
    }

    /// Accepts the superblock when its checksum matches, else `EIO`.
    pub fn verify_checksum(&self) -> (r: SysResult<()>)
        requires
            self.wf(),
        ensures
            r is Ok <==> sb_checksum_ok(self.raw@),
            r matches Err(e) ==> e == Errno::EIO,
    {
        let stored = get_u32_le(self.raw.as_slice(), SB_CHECKSUM_OFF)?;
        let body = vstd::slice::slice_subrange(self.raw.as_slice(), 0, SB_CHECKSUM_OFF);
        let calc = crc32c_update(CRC32C_INIT, body);
        if calc != stored {
            return Err(Errno::EIO);
        }
        Ok(())
    }

    /// Recomputes the superblock checksum.
    pub fn update_checksum(&mut self) -> (r: SysResult<()>)
        requires
            old(self).wf(),
        ensures
            r is Ok,
            final(self).wf(),
            final(self).raw@ == sb_with_checksum(old(self).raw@),
            sb_checksum_ok(final(self).raw@),
    {
        put_u32_le(&mut self.raw, SB_CHECKSUM_OFF, 0)?;
        let ghost zeroed = self.raw@;
        let body = vstd::slice::slice_subrange(self.raw.as_slice(), 0, SB_CHECKSUM_OFF);
        let csum = crc32c_update(CRC32C_INIT, body);
        let r = put_u32_le(&mut self.raw, SB_CHECKSUM_OFF, csum);
        proof {
            crate::bytes::lemma_put32_get(zeroed, SB_CHECKSUM_OFF as int, csum as int);
            assert(self.raw@.subrange(0, SB_CHECKSUM_OFF as int) =~= zeroed.subrange(0, SB_CHECKSUM_OFF as int));
        }
        r
    }

    /// The `s_first_meta_bg` field.
    pub fn first_meta_bg(&self) -> (r: SysResult<u32>)
        requires
            self.wf(),
        ensures
            r == Ok::<u32, Errno>(le32(self.raw@, SB_FIRST_META_BG_OFF as int) as u32),
    {
        get_u32_le(self.raw.as_slice(), SB_FIRST_META_BG_OFF)
    }
}

/// Free block count stored in a superblock.
pub open spec fn spec_free_blocks(raw: Seq<u8>) -> u64 {
    (le32(raw, SB_FREE_BLOCKS_COUNT_LO_OFF as int) + le32(raw, SB_FREE_BLOCKS_COUNT_HI_OFF as int)
        * 0x1_0000_0000) as u64
}

/// Block size for a `log_block_size` field, zero when out of range.
pub fn block_size_from_log(log: u32) -> (r: u32)
    ensures
        r == block_size_for_log(log as int),
{
    match log {
        0 => 1024,
        1 => 2048,
        2 => 4096,
        3 => 8192,
        4 => 16384,
        5 => 32768,
        6 => 65536,
        _ => 0,
    }
}

impl Context {
    /// Mounts the filesystem on `dev`: reads and validates the superblock and derives the geometry.
    pub fn from_device(fsno: u32, dev: BlockDevice) -> (r: SysResult<Context>)
        ensures
            dev@.len() < EXT4_SUPERBLOCK_OFFSET + EXT4_SUPERBLOCK_SIZE ==> r == Err::<Context, Errno>(Errno::EIO),
            dev@.len() >= EXT4_SUPERBLOCK_OFFSET + EXT4_SUPERBLOCK_SIZE ==> match r {
                Ok(c) => mount_error(sb_bytes(dev@)) is None && mounted_from(c, fsno, sb_bytes(dev@)) && c.wf()
                    && c.dev@ == dev@,
                Err(e) => mount_error(sb_bytes(dev@)) == Some(e),
            },
    {
        let mut raw: Vec<u8> = vec![0u8; EXT4_SUPERBLOCK_SIZE];
        if dev.read_at(EXT4_SUPERBLOCK_OFFSET, &mut raw).is_err() {
            return Err(Errno::EIO);
        }
        let ghost sbraw = raw@;
        assert(sbraw == sb_bytes(dev@));
        let sb = Ext4Superblock::parse_raw(raw)?;
        let feature_incompat = sb.feature_incompat()?;
        let feature_ro_compat = sb.feature_ro_compat()?;
        let feature_compat = sb.feature_compat()?;
        if !flags_contain(SUPPORTED_INCOMPAT, feature_incompat) {
            return Err(Errno::EOPNOTSUPP);
        }
        if !flags_contain(SUPPORTED_RO_COMPAT, feature_ro_compat) {
            return Err(Errno::EOPNOTSUPP);
        }
        let metadata_csum = flags_contain(feature_ro_compat, RO_COMPAT_METADATA_CSUM);
        if metadata_csum {
            if sb.checksum_type()? != EXT4_CHECKSUM_CRC32C {
                return Err(Errno::EIO);
            }
            sb.verify_checksum()?;
        }
        let log_block_size = sb.log_block_size()?;
        if log_block_size > 6 {
            return Err(Errno::EINVAL);
        }
        let block_size = block_size_from_log(log_block_size);
        let blocks_per_group = sb.blocks_per_group()?;
        let inodes_per_group = sb.inodes_per_group()?;
        if blocks_per_group == 0 || inodes_per_group == 0 {
            return Err(Errno::EINVAL);
        }
        let inode_size = sb.inode_size()?;
        if inode_size < 128 || inode_size > (block_size % 0x10000) as u16 {
            return Err(Errno::EINVAL);
        }
        let sb_desc_size = sb.desc_size()?;
        let desc_size = if sb_desc_size < 32 { 32 } else { sb_desc_size };
        if desc_size > 64 || desc_size % 4 != 0 {
            return Err(Errno::EINVAL);
        }
        let blocks_count = sb.blocks_count()?;
        if blocks_count == 0 {
            return Err(Errno::EINVAL);
        }
        if blocks_count > u64::MAX - (blocks_per_group as u64 - 1) {
            return Err(Errno::EINVAL);
        }
        let groups_count_u64 = (blocks_count + (blocks_per_group as u64 - 1)) / blocks_per_group as u64;
        if groups_count_u64 > u32::MAX as u64 {
            return Err(Errno::EINVAL);
        }
        let uuid = sb.uuid()?;
        let checksum_seed = if flags_contain(feature_incompat, INCOMPAT_CSUM_SEED) {
            sb.checksum_seed()?
        } else {
            crc32c_update(CRC32C_INIT, uuid.as_slice())
        };
        let mut hash_seed: Vec<u32> = Vec::new();
        let mut i: usize = 0;
        while i < 4
            invariant
                i <= 4,
                sb.wf(),
                hash_seed@.len() == i,
                forall|k: int| 0 <= k < i ==> hash_seed@[k] == le32(sb.raw@, SB_HASH_SEED_OFF + 4 * k),
            decreases 4 - i,
        {
            let v = get_u32_le(sb.raw.as_slice(), SB_HASH_SEED_OFF + 4 * i)?;
            hash_seed.push(v);
            i += 1;
        }
        let flags = get_u32_le(sb.raw.as_slice(), SB_FLAGS_OFF)?;
        let first_data_block = sb.first_data_block()?;
        Ok(Context {
            fsno,
            dev,
            uuid,
            hash_seed,
            flags,
            checksum_seed,
            metadata_csum,
            block_size,
            blocks_count,
            first_data_block,
            blocks_per_group,
            inodes_per_group,
            inode_size,
            desc_size,
            groups_count: groups_count_u64 as u32,
            feature_compat,
            feature_incompat,
            feature_ro_compat,
        })
    }

    /// Reads `dst.len()` bytes of the device at `offset`; `EIO` when they leave the device.
    pub fn read_device(&self, offset: u64, dst: &mut Vec<u8>) -> (r: SysResult<()>)
        ensures
            match r {
                Ok(_) => offset <= usize::MAX && offset + old(dst)@.len() <= self.dev@.len() && final(dst)@ == self.dev@.subrange(
                    offset as int,
                    offset + old(dst)@.len(),
                ),
                Err(e) => final(dst)@ == old(dst)@ && ((offset > usize::MAX && e == Errno::EINVAL) || (offset
                    <= usize::MAX && offset + old(dst)@.len() > self.dev@.len() && e == Errno::EIO)),
            },
    {
        if offset > usize::MAX as u64 {
            return Err(Errno::EINVAL);
        }
        match self.dev.read_at(offset as usize, dst) {
            Ok(()) => Ok(()),
            Err(()) => Err(Errno::EIO),
        }
    }

    /// Writes `src` to the device at `offset`; `EIO` when it leaves the device or the device is read-only.
    pub fn write_device(&mut self, offset: u64, src: &[u8]) -> (r: SysResult<()>)
        ensures
            final(self).unchanged_but_dev(*old(self)),
            match r {
                Ok(_) => offset <= usize::MAX && offset + src@.len() <= old(self).dev@.len() && !old(self).dev.spec_read_only()
                    && final(self).dev@ == old(self).dev@.subrange(0, offset as int) + src@ + old(self).dev@.subrange(
                    offset + src@.len(),
                    old(self).dev@.len() as int,
                ),
                Err(e) => final(self).dev@ == old(self).dev@ && ((offset > usize::MAX && e == Errno::EINVAL) || (
                offset <= usize::MAX && (offset + src@.len() > old(self).dev@.len()
                    || old(self).dev.spec_read_only()) && e == Errno::EIO)),
            },
    {
        if offset > usize::MAX as u64 {
            return Err(Errno::EINVAL);
        }
        match self.dev.write_at(offset as usize, src) {
            Ok(()) => Ok(()),
            Err(()) => Err(Errno::EIO),
        }
    }

    /// Reads the superblock, checking magic and, with metadata checksums, its checksum.
    pub fn read_superblock(&self) -> (r: SysResult<Ext4Superblock>)
        ensures
            match r {
                Ok(sb) => self.dev@.len() >= EXT4_SUPERBLOCK_OFFSET + EXT4_SUPERBLOCK_SIZE && sb.raw@ == sb_bytes(
                    self.dev@,
                ) && le16(sb.raw@, SB_MAGIC_OFF as int) == EXT4_SUPER_MAGIC && (self.metadata_csum ==> sb_checksum_ok(sb.raw@)),
                Err(e) => e == Errno::EIO && (self.dev@.len() < EXT4_SUPERBLOCK_OFFSET + EXT4_SUPERBLOCK_SIZE
                    || le16(sb_bytes(self.dev@), SB_MAGIC_OFF as int) != EXT4_SUPER_MAGIC || (self.metadata_csum
                    && !sb_checksum_ok(sb_bytes(self.dev@)))),
            },
    {
        let mut raw: Vec<u8> = vec![0u8; EXT4_SUPERBLOCK_SIZE];
        self.read_device(EXT4_SUPERBLOCK_OFFSET as u64, &mut raw)?;
        let sb = Ext4Superblock::parse_raw(raw)?;
        if self.metadata_csum {
            sb.verify_checksum()?;
        }
        Ok(sb)
    }

    /// Writes the superblock, recomputing its checksum first when metadata checksums are on.
    pub fn write_superblock(&mut self, sb: &mut Ext4Superblock) -> (r: SysResult<()>)
        requires
            old(sb).wf(),
        ensures
            final(self).unchanged_but_dev(*old(self)),
            final(sb).wf(),
            final(sb).raw@ == (if old(self).metadata_csum { sb_with_checksum(old(sb).raw@) } else { old(sb).raw@ }),
            match r {
                Ok(_) => old(self).dev@.len() >= EXT4_SUPERBLOCK_OFFSET + EXT4_SUPERBLOCK_SIZE
                    && !old(self).dev.spec_read_only() && final(self).dev@ == old(self).dev@.subrange(
                    0,
                    EXT4_SUPERBLOCK_OFFSET as int,
                ) + final(sb).raw@ + old(self).dev@.subrange(
                    (EXT4_SUPERBLOCK_OFFSET + EXT4_SUPERBLOCK_SIZE) as int,
                    old(self).dev@.len() as int,
                ),
                Err(e) => e == Errno::EIO && final(self).dev@ == old(self).dev@ && (old(self).dev@.len()
                    < EXT4_SUPERBLOCK_OFFSET + EXT4_SUPERBLOCK_SIZE || old(self).dev.spec_read_only()),
            },
    {
        if self.metadata_csum {
            let _ = sb.update_checksum();
        }
        self.write_device(EXT4_SUPERBLOCK_OFFSET as u64, sb.raw.as_slice())
    }

    /// The filesystem block size.
    pub fn block_size(&self) -> (r: u32)
        ensures
            r == self.block_size,
    {
        self.block_size
    }

    /// Filesystem statistics from the current superblock.
    pub fn statfs(&self) -> (r: SysResult<Statfs>)
        ensures
            match r {
                Ok(s) => {
                    let raw = sb_bytes(self.dev@);
                    &&& self.dev@.len() >= EXT4_SUPERBLOCK_OFFSET + EXT4_SUPERBLOCK_SIZE
                    &&& le16(raw, SB_MAGIC_OFF as int) == EXT4_SUPER_MAGIC
                    &&& (self.metadata_csum ==> sb_checksum_ok(raw))
                    &&& s == (Statfs {
                        f_type: EXT4_SUPER_MAGIC as u64,
                        f_bsize: self.block_size as u64,
                        f_blocks: self.blocks_count,
                        f_bfree: spec_free_blocks(raw),
                        f_bavail: spec_free_blocks(raw),
                        f_files: le32(raw, SB_INODES_COUNT_OFF as int) as u64,
                        f_ffree: le32(raw, SB_FREE_INODES_COUNT_OFF as int) as u64,
                        f_fsid: self.fsno as u64,
                        f_namelen: EXT4_MAX_NAME_LEN as u64,
                        f_frsize: self.block_size as u64,
                        f_flag: 0,
                    })
                },
                Err(e) => e == Errno::EIO && (self.dev@.len() < EXT4_SUPERBLOCK_OFFSET + EXT4_SUPERBLOCK_SIZE
                    || le16(sb_bytes(self.dev@), SB_MAGIC_OFF as int) != EXT4_SUPER_MAGIC || (self.metadata_csum
                    && !sb_checksum_ok(sb_bytes(self.dev@)))),
            },
    {
        let sb = self.read_superblock()?;
        let free_blocks = sb.free_blocks_count()?;
        let files = sb.inodes_count()?;
        let free_inodes = sb.free_inodes_count()?;
        Ok(Statfs {
            f_type: EXT4_SUPER_MAGIC as u64,
            f_bsize: self.block_size as u64,
            f_blocks: self.blocks_count,
            f_bfree: free_blocks,
            f_bavail: free_blocks,
            f_files: files as u64,
            f_ffree: free_inodes as u64,
            f_fsid: self.fsno as u64,
            f_namelen: EXT4_MAX_NAME_LEN as u64,
            f_frsize: self.block_size as u64,
            f_flag: 0,
        })
    }

    /// Whether group `group` carries a superblock backup under the sparse-superblock rule.
    pub fn supports_sparse_super(&self, group: u32) -> (b: bool)
        ensures
            b == (!has_bits(self.feature_ro_compat, RO_COMPAT_SPARSE_SUPER) || group <= 1 || (group % 2 != 0
                && (is_power_of_spec(group as int, 3) || is_power_of_spec(group as int, 5)
                || is_power_of_spec(group as int, 7)))),
    {
        if !flags_contain(self.feature_ro_compat, RO_COMPAT_SPARSE_SUPER) {
            return true;
        }
        if group <= 1 {
            return true;
        }
        if group % 2 == 0 {
            return false;
        }
        is_power_of(group, 3) || is_power_of(group, 5) || is_power_of(group, 7)
    }
}

/// Whether `n` is a positive power of `base`: `base`, `base²`, ….
pub open spec fn is_power_of_spec(n: int, base: int) -> bool
    decreases n,
{
    if n < base || base < 2 {
        false
    } else if n == base {
        true
    } else if n % base != 0 {
        false
    } else {
        proof {
            vstd::arithmetic::div_mod::lemma_div_decreases(n, base);
        }
        is_power_of_spec(n / base, base)
    }
}

/// Whether `n` is a positive power of `base`.
pub fn is_power_of(n: u32, base: u32) -> (b: bool)
    requires
        base >= 2,
    ensures
        b == is_power_of_spec(n as int, base as int),
{
    let mut m = n;
    while m >= base
        invariant
            base >= 2,
            is_power_of_spec(m as int, base as int) == is_power_of_spec(n as int, base as int),
        decreases m,
    {
        if m == base {
            return true;
        }
        if m % base != 0 {
            return false;
        }
        proof {
            vstd::arithmetic::div_mod::lemma_div_decreases(m as int, base as int);
        }
        m = m / base;
    }
    false
}

} // verus!
