use kernelx_fs::blockdev::BlockDevice;
use kernelx_fs::errno::Errno;
use kernelx_fs::ext4::ctx::Context;
use kernelx_fs::ext4::defs::ExtentLeaf;

fn context() -> Context {
    Context {
        fsno: 0,
        dev: BlockDevice::new(vec![0u8; 64 * 1024], false),
        uuid: vec![0u8; 16],
        hash_seed: vec![0u32; 4],
        flags: 0,
        checksum_seed: 0,
        metadata_csum: false,
        block_size: 1024,
        blocks_count: 64,
        first_data_block: 1,
        blocks_per_group: 8192,
        inodes_per_group: 16,
        inode_size: 256,
        desc_size: 32,
        groups_count: 1,
        feature_compat: 0,
        feature_incompat: 0,
        feature_ro_compat: 0,
    }
}

#[test]
fn allocation_reports_no_space_when_descriptors_count_none() {
    let mut ctx = context();
    assert_eq!(ctx.alloc_block(), Err(Errno::ENOSPC));
    assert_eq!(ctx.alloc_inode(false), Err(Errno::ENOSPC));
    assert_eq!(ctx.alloc_blocks(0), Ok(vec![]));
    assert_eq!(ctx.alloc_blocks(2), Err(Errno::ENOSPC));
    assert!(ctx.dev.bytes().iter().all(|b| *b == 0));
}

#[test]
fn freeing_checks_range_and_bitmap() {
    let mut ctx = context();
    assert_eq!(ctx.free_block(0), Err(Errno::EINVAL));
    assert_eq!(ctx.free_block(63), Err(Errno::EIO));
    assert!(ctx.dev.bytes().iter().all(|b| *b == 0));
}

#[test]
fn superblock_counters_need_a_superblock() {
    let mut ctx = context();
    assert_eq!(ctx.dec_superblock_free_blocks(), Err(Errno::EIO));
    assert_eq!(ctx.inc_superblock_free_inodes(), Err(Errno::EIO));
}

#[test]
fn new_directory_block_holds_dot_entries() {
    let mut ctx = context();
    assert_eq!(ctx.init_dir_block(30, 12, 0, 2), Ok(()));
    let back = ctx.read_dir_block(12, 0, 30).unwrap();
    assert_eq!(back.entries.len(), 2);
    assert_eq!(back.entries[0].name, b".".to_vec());
    assert_eq!(back.entries[0].inode, 12);
    assert_eq!(back.entries[1].name, b"..".to_vec());
    assert_eq!(back.entries[1].inode, 2);
    assert_eq!(back.entries[1].rec_len, 1012);
    assert_eq!(ctx.init_dir_block(64, 12, 0, 2), Err(Errno::EIO));
}

fn le16_at(b: &[u8], off: usize) -> u16 {
    u16::from_le_bytes([b[off], b[off + 1]])
}

fn le32_at(b: &[u8], off: usize) -> u32 {
    u32::from_le_bytes([b[off], b[off + 1], b[off + 2], b[off + 3]])
}

/// One group of 1 KiB blocks: superblock at block 1, descriptors at block 2, block bitmap at
/// block 3, inode bitmap at block 4, inode table from block 5; blocks 1..=9 and inodes 1 and 2
/// in use.
fn formatted_context() -> Context {
    let mut img = vec![0u8; 64 * 1024];
    let sb = 1024;
    img[sb + 0x0C..sb + 0x10].copy_from_slice(&54u32.to_le_bytes());
    img[sb + 0x10..sb + 0x14].copy_from_slice(&14u32.to_le_bytes());
    img[sb + 0x38..sb + 0x3A].copy_from_slice(&0xEF53u16.to_le_bytes());
    let gd = 2 * 1024;
    img[gd..gd + 4].copy_from_slice(&3u32.to_le_bytes());
    img[gd + 4..gd + 8].copy_from_slice(&4u32.to_le_bytes());
    img[gd + 8..gd + 12].copy_from_slice(&5u32.to_le_bytes());
    img[gd + 0x0C..gd + 0x0E].copy_from_slice(&54u16.to_le_bytes());
    img[gd + 0x0E..gd + 0x10].copy_from_slice(&14u16.to_le_bytes());
    img[gd + 0x10..gd + 0x12].copy_from_slice(&1u16.to_le_bytes());
    img[gd + 0x12..gd + 0x14].copy_from_slice(&1u16.to_le_bytes());
    img[5 * 1024 + 512] = 0xAA;
    img[3 * 1024] = 0xFF;
    img[3 * 1024 + 1] = 0x01;
    img[4 * 1024] = 0x03;
    let mut ctx = context();
    ctx.dev = BlockDevice::new(img, false);
    ctx
}

#[test]
fn allocating_then_freeing_a_block_restores_bitmap_and_counts() {
    let mut ctx = formatted_context();
    let before = ctx.dev.bytes().to_vec();
    assert_eq!(ctx.alloc_block(), Ok(10));
    {
        let b = ctx.dev.bytes();
        assert_eq!(b[3 * 1024 + 1], 0x03);
        assert_eq!(le16_at(b, 2 * 1024 + 0x0C), 53);
        assert_eq!(le32_at(b, 1024 + 0x0C), 53);
        assert!(b[10 * 1024..11 * 1024].iter().all(|x| *x == 0));
    }
    assert_eq!(ctx.free_block(10), Ok(()));
    let after = ctx.dev.bytes();
    assert_eq!(after[3 * 1024..4 * 1024], before[3 * 1024..4 * 1024]);
    assert_eq!(le16_at(after, 2 * 1024 + 0x0C), 54);
    assert_eq!(le32_at(after, 1024 + 0x0C), 54);
    assert_eq!(ctx.free_block(10), Err(Errno::EIO));
}

#[test]
fn freeing_an_inode_clears_its_bit_and_moves_the_counts() {
    let mut ctx = formatted_context();
    assert_eq!(ctx.free_inode_bit(2, true), Ok(()));
    let b = ctx.dev.bytes();
    assert_eq!(b[4 * 1024], 0x01);
    assert_eq!(le16_at(b, 2 * 1024 + 0x0E), 15);
    assert_eq!(le16_at(b, 2 * 1024 + 0x10), 0);
    assert_eq!(le32_at(b, 1024 + 0x10), 15);
    assert_eq!(ctx.free_inode_bit(2, false), Err(Errno::EIO));
}

#[test]
fn insert_mapping_merges_a_following_block() {
    let ctx = context();
    let mut extents = vec![ExtentLeaf { ee_block: 0, ee_len_raw: 2, ee_start: 100 }];
    assert_eq!(ctx.insert_extent_mapping(&mut extents, 2, 102), Ok(()));
    assert_eq!(extents, vec![ExtentLeaf { ee_block: 0, ee_len_raw: 3, ee_start: 100 }]);
    assert_eq!(ctx.insert_extent_mapping(&mut extents, 5, 200), Ok(()));
    assert_eq!(extents.len(), 2);
    assert_eq!(ctx.insert_extent_mapping(&mut extents, 1, 300), Err(Errno::EEXIST));
}

#[test]
fn allocating_an_inode_sets_its_bit_and_moves_the_counts() {
    let mut ctx = formatted_context();
    assert_eq!(ctx.alloc_inode(true), Ok(3));
    let b = ctx.dev.bytes();
    assert_eq!(b[4 * 1024], 0x07);
    assert_eq!(le16_at(b, 2 * 1024 + 0x0E), 13);
    assert_eq!(le16_at(b, 2 * 1024 + 0x10), 2);
    assert_eq!(le32_at(b, 1024 + 0x10), 13);
    assert_eq!(le16_at(b, 2 * 1024 + 0x12) & 1, 0);
    assert!(b[5 * 1024 + 512..5 * 1024 + 768].iter().all(|x| *x == 0));
}

#[test]
fn allocating_then_freeing_an_inode_restores_bitmap_and_counts() {
    let mut ctx = formatted_context();
    let before = ctx.dev.bytes().to_vec();
    assert_eq!(ctx.alloc_inode(true), Ok(3));
    assert_eq!(ctx.free_inode_bit(3, true), Ok(()));
    let after = ctx.dev.bytes();
    assert_eq!(after[4 * 1024..5 * 1024], before[4 * 1024..5 * 1024]);
    assert_eq!(le16_at(after, 2 * 1024 + 0x0E), 14);
    assert_eq!(le16_at(after, 2 * 1024 + 0x10), 1);
    assert_eq!(le32_at(after, 1024 + 0x10), 14);
}

#[test]
fn stored_inode_record_reads_back() {
    let mut ctx = formatted_context();
    let mut node = ctx.new_inode(3, 0o100644, 5, 6, 1).unwrap();
    node.i_size = 1234;
    assert_eq!(ctx.write_inode(&mut node), Ok(()));
    let back = ctx.read_inode(3).unwrap();
    assert_eq!(back.raw, node.raw);
    assert_eq!(back.i_size, 1234);
    assert_eq!(back.i_uid, 5);
    assert_eq!(back.i_gid, 6);
    assert_eq!(back.i_mode, 0o100644);
    assert_eq!(ctx.dev.bytes()[5 * 1024 + 512..5 * 1024 + 768], node.raw[..]);
}
