//! The mounted-filesystem context of the native ext4 layer.
use vstd::prelude::*;
use crate::blockdev::BlockDevice;
use super::defs::{has_bits, RO_COMPAT_METADATA_CSUM};

verus! {

/// Geometry, checksum identity and device of a mounted ext4 filesystem.
pub struct Context {
    pub fsno: u32,
    pub dev: BlockDevice,
    pub uuid: Vec<u8>,
    pub hash_seed: Vec<u32>,
    pub flags: u32,
    pub checksum_seed: u32,
    pub metadata_csum: bool,
    pub block_size: u32,
    pub blocks_count: u64,
    pub first_data_block: u32,
    pub blocks_per_group: u32,
    pub inodes_per_group: u32,
    pub inode_size: u16,
    pub desc_size: u16,
    pub groups_count: u32,
    pub feature_compat: u32,
    pub feature_incompat: u32,
    pub feature_ro_compat: u32,
}

/// The block sizes ext4 allows.
pub open spec fn valid_block_size(bs: u32) -> bool {
    bs == 1024 || bs == 2048 || bs == 4096 || bs == 8192 || bs == 16384 || bs == 32768 || bs == 65536
}

impl Context {
    /// The geometry checks that mounting established.
    pub open spec fn wf(&self) -> bool {
        &&& valid_block_size(self.block_size)
        &&& self.blocks_per_group > 0
        &&& self.inodes_per_group > 0
        &&& 128 <= self.inode_size <= self.block_size
        &&& 32 <= self.desc_size <= 64
        &&& self.desc_size % 4 == 0
        &&& self.blocks_count > 0
        &&& self.groups_count as int == (self.blocks_count + self.blocks_per_group - 1) / (
        self.blocks_per_group as int)
        &&& self.uuid@.len() == 16
        &&& self.hash_seed@.len() == 4
        &&& self.metadata_csum == has_bits(self.feature_ro_compat, RO_COMPAT_METADATA_CSUM)
    }

    /// Every field but the device contents agrees with `o`.
    pub open spec fn unchanged_but_dev(&self, o: Context) -> bool {
        &&& self.fsno == o.fsno
        &&& self.uuid@ == o.uuid@
        &&& self.hash_seed@ == o.hash_seed@
        &&& self.flags == o.flags
        &&& self.checksum_seed == o.checksum_seed
        &&& self.metadata_csum == o.metadata_csum
        &&& self.block_size == o.block_size
        &&& self.blocks_count == o.blocks_count
        &&& self.first_data_block == o.first_data_block
        &&& self.blocks_per_group == o.blocks_per_group
        &&& self.inodes_per_group == o.inodes_per_group
        &&& self.inode_size == o.inode_size
        &&& self.desc_size == o.desc_size
        &&& self.groups_count == o.groups_count
        &&& self.feature_compat == o.feature_compat
        &&& self.feature_incompat == o.feature_incompat
        &&& self.feature_ro_compat == o.feature_ro_compat
        &&& self.dev.spec_read_only() == o.dev.spec_read_only()
        &&& self.dev@.len() == o.dev@.len()
    }
}

} // verus!
