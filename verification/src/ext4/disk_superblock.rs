//! The ext4 superblock as a mount reads it first: geometry, counts and feature words, and
//! which feature sets the driver supports.
use vstd::prelude::*;
use crate::blockdev::BlockDevice;
use crate::bytes::{le16, le32, read_u16, read_u32};
use crate::errno::{Errno, SysResult};
use super::defs::{has_bits, flags_contain};

verus! {

pub const EXT4_SUPERBLOCK_OFFSET: usize = 1024;
pub const EXT4_SUPERBLOCK_SIZE: usize = 1024;
pub const EXT4_SUPERBLOCK_MAGIC: u16 = 0xEF53;

pub const COMPAT_HAS_JOURNAL: u32 = 0x0004;

pub const INCOMPAT_FILETYPE: u32 = 0x0002;
pub const INCOMPAT_RECOVER: u32 = 0x0004;
pub const INCOMPAT_META_BG: u32 = 0x0010;
pub const INCOMPAT_EXTENTS: u32 = 0x0040;
pub const INCOMPAT_BIT64: u32 = 0x0080;
pub const INCOMPAT_FLEX_BG: u32 = 0x0200;
pub const INCOMPAT_INLINE_DATA: u32 = 0x8000;
pub const INCOMPAT_ENCRYPT: u32 = 0x10000;
pub const INCOMPAT_CASEFOLD: u32 = 0x40000;

pub const RO_COMPAT_SPARSE_SUPER: u32 = 0x0001;
pub const RO_COMPAT_LARGE_FILE: u32 = 0x0002;
pub const RO_COMPAT_HUGE_FILE: u32 = 0x0008;
pub const RO_COMPAT_GDT_CSUM: u32 = 0x0010;
pub const RO_COMPAT_DIR_NLINK: u32 = 0x0020;
pub const RO_COMPAT_EXTRA_ISIZE: u32 = 0x0040;
pub const RO_COMPAT_METADATA_CSUM: u32 = 0x0400;
pub const RO_COMPAT_PROJECT: u32 = 0x2000;
pub const RO_COMPAT_VERITY: u32 = 0x8000;
pub const RO_COMPAT_ORPHAN_PRESENT: u32 = 0x10000;

/// The incompatible features the driver can mount: filetype, recover, extents, 64bit, flex_bg.
pub const SUPPORTED_INCOMPAT: u32 = 0x0002 | 0x0004 | 0x0040 | 0x0080 | 0x0200;
/// The read-only-compatible features the driver can write with.
pub const SUPPORTED_RO_COMPAT: u32 = 0x0001 | 0x0002 | 0x0008 | 0x0010 | 0x0020 | 0x0040 | 0x0400;

/// The feature words of a superblock and what they imply for a mount.
#[derive(Clone, Copy, Debug, PartialEq, Eq, Structural)]
pub struct Ext4FeatureSet {
    pub compat: u32,
    pub incompat: u32,
    pub ro_compat: u32,
    pub has_journal: bool,
    pub needs_recovery: bool,
    pub requires_readonly: bool,
}

/// The fields of an on-disk superblock that a mount needs.
#[derive(Clone, Copy, Debug, PartialEq, Eq, Structural)]
pub struct Ext4SuperBlockDisk {
    pub inodes_count: u32,
    pub blocks_count: u64,
    pub free_blocks_count: u64,
    pub free_inodes_count: u32,
    pub blocks_per_group: u32,
    pub inodes_per_group: u32,
    pub block_size: u32,
    pub inode_size: u16,
    pub desc_size: u16,
    pub first_data_block: u32,
    pub features: Ext4FeatureSet,
}

/// The feature set that the feature words of `raw` give.
pub open spec fn features_of(raw: Seq<u8>) -> Ext4FeatureSet {
    let compat = le32(raw, 0x5C) as u32;
    let incompat = le32(raw, 0x60) as u32;
    let ro_compat = le32(raw, 0x64) as u32;
    Ext4FeatureSet {
        compat,
        incompat,
        ro_compat,
        has_journal: has_bits(compat, COMPAT_HAS_JOURNAL),
        needs_recovery: has_bits(incompat, INCOMPAT_RECOVER),
        requires_readonly: ro_compat & !SUPPORTED_RO_COMPAT != 0,
    }
}

/// The superblock that the 1024 bytes `raw` hold: `EINVAL` for a wrong magic number or a
/// block size past 64 KiB.
pub open spec fn superblock_spec(raw: Seq<u8>) -> Result<Ext4SuperBlockDisk, Errno> {
    let bit64 = has_bits(le32(raw, 0x60) as u32, INCOMPAT_BIT64);
    let log_block_size = le32(raw, 0x18);
    let desc_raw = le16(raw, 0xFE);
    if le16(raw, 0x38) != EXT4_SUPERBLOCK_MAGIC {
        Err(Errno::EINVAL)
    } else if log_block_size > 6 {
        Err(Errno::EINVAL)
    } else {
        Ok(Ext4SuperBlockDisk {
            inodes_count: le32(raw, 0x00) as u32,
            blocks_count: (le32(raw, 0x04) + if bit64 { le32(raw, 0x150) * 0x1_0000_0000 } else { 0 }) as u64,
            free_blocks_count: (le32(raw, 0x0C) + if bit64 { le32(raw, 0x158) * 0x1_0000_0000 } else { 0 }) as u64,
            free_inodes_count: le32(raw, 0x10) as u32,
            blocks_per_group: le32(raw, 0x20) as u32,
            inodes_per_group: le32(raw, 0x28) as u32,
            block_size: (1024 * crate::exfat::info::pow2_of(log_block_size as nat)) as u32,
            inode_size: le16(raw, 0x58) as u16,
            desc_size: if bit64 && desc_raw > 32 { desc_raw as u16 } else { 32u16 },
            first_data_block: le32(raw, 0x14) as u32,
            features: features_of(raw),
        })
    }
}

/// Reads the superblock at byte 1024 of the device: `EIO` when the device is too small for
/// it, `EINVAL` when it is no ext4 superblock.
pub fn load_superblock(dev: &BlockDevice) -> (r: SysResult<Ext4SuperBlockDisk>)
    ensures
        dev@.len() < EXT4_SUPERBLOCK_OFFSET + EXT4_SUPERBLOCK_SIZE ==> r == Err::<Ext4SuperBlockDisk, Errno>(Errno::EIO),
        dev@.len() >= EXT4_SUPERBLOCK_OFFSET + EXT4_SUPERBLOCK_SIZE ==> r == superblock_spec(dev@.subrange(1024, 2048)),
{
    let mut raw: Vec<u8> = vec![0u8; EXT4_SUPERBLOCK_SIZE];
    if dev.read_at(EXT4_SUPERBLOCK_OFFSET, &mut raw).is_err() {
        return Err(Errno::EIO);
    }
    let magic = read_u16(&raw, 0x38);
    if magic != EXT4_SUPERBLOCK_MAGIC {
        return Err(Errno::EINVAL);
    }
    let incompat = read_u32(&raw, 0x60);
    let ro_compat = read_u32(&raw, 0x64);
    let compat = read_u32(&raw, 0x5C);
    let has_64bit = flags_contain(incompat, INCOMPAT_BIT64);
    let has_journal = flags_contain(compat, COMPAT_HAS_JOURNAL);
    let needs_recovery = flags_contain(incompat, INCOMPAT_RECOVER);
    let requires_readonly = ro_compat & !SUPPORTED_RO_COMPAT != 0;

    let blocks_count_lo = read_u32(&raw, 0x04);
    let free_blocks_lo = read_u32(&raw, 0x0C);
    let blocks_count_hi = if has_64bit { read_u32(&raw, 0x150) } else { 0 };
    let free_blocks_hi = if has_64bit { read_u32(&raw, 0x158) } else { 0 };
    let log_block_size = read_u32(&raw, 0x18);
    if log_block_size > 6 {
        return Err(Errno::EINVAL);
    }
    let mut block_size: u32 = 1024;
    let mut i: u32 = 0;
    while i < log_block_size
        invariant
            i <= log_block_size <= 6,
            block_size == 1024 * crate::exfat::info::pow2_of(i as nat),
            block_size <= 1024 * 64,
        decreases log_block_size - i,
    {
        proof {
            lemma_pow2_small(i as nat);
        }
        block_size = block_size * 2;
        i += 1;
    }
    let desc_size_raw = read_u16(&raw, 0xFE);
    let desc_size = if has_64bit { if desc_size_raw > 32 { desc_size_raw } else { 32 } } else { 32 };
    let features = Ext4FeatureSet { compat, incompat, ro_compat, has_journal, needs_recovery, requires_readonly };
    Ok(Ext4SuperBlockDisk {
        inodes_count: read_u32(&raw, 0x00),
        blocks_count: blocks_count_lo as u64 + blocks_count_hi as u64 * 0x1_0000_0000,
        free_blocks_count: free_blocks_lo as u64 + free_blocks_hi as u64 * 0x1_0000_0000,
        free_inodes_count: read_u32(&raw, 0x10),
        blocks_per_group: read_u32(&raw, 0x20),
        inodes_per_group: read_u32(&raw, 0x28),
        block_size,
        inode_size: read_u16(&raw, 0x58),
        desc_size,
        first_data_block: read_u32(&raw, 0x14),
        features,
    })
}

proof fn lemma_pow2_small(i: nat)
    requires
        i < 6,
    ensures
        crate::exfat::info::pow2_of(i + 1) == 2 * crate::exfat::info::pow2_of(i),
        crate::exfat::info::pow2_of(i + 1) <= 64,
{
    reveal_with_fuel(crate::exfat::info::pow2_of, 8);
}

/// Whether the driver can mount a file system with these features: `EOPNOTSUPP` for an
/// incompatible feature it lacks, or for project quotas, verity or orphan files.
pub fn validate_feature_set(fs: &Ext4FeatureSet) -> (r: SysResult<()>)
    ensures
        r == (if fs.incompat & !SUPPORTED_INCOMPAT != 0
            || fs.incompat & (INCOMPAT_INLINE_DATA | INCOMPAT_ENCRYPT | INCOMPAT_CASEFOLD) != 0
            || fs.ro_compat & (RO_COMPAT_PROJECT | RO_COMPAT_VERITY | RO_COMPAT_ORPHAN_PRESENT) != 0 {
            Err::<(), Errno>(Errno::EOPNOTSUPP)
        } else {
            Ok::<(), Errno>(())
        }),
{
    if fs.incompat & !SUPPORTED_INCOMPAT != 0 {
        return Err(Errno::EOPNOTSUPP);
    }
    if fs.incompat & (INCOMPAT_INLINE_DATA | INCOMPAT_ENCRYPT | INCOMPAT_CASEFOLD) != 0 {
        return Err(Errno::EOPNOTSUPP);
    }
    if fs.ro_compat & (RO_COMPAT_PROJECT | RO_COMPAT_VERITY | RO_COMPAT_ORPHAN_PRESENT) != 0 {
        return Err(Errno::EOPNOTSUPP);
    }
    Ok(())
}

} // verus!
