use kernelx_fs::blockdev::BlockDevice;
use kernelx_fs::errno::Errno;
use kernelx_fs::ext4::ctx::Context;
use kernelx_fs::ext4::defs::{DirBlock, Ext4DirEntryFileType, Ext4Inode, INODE_FLAG_EXTENTS, INODE_FLAG_INDEX};
use kernelx_fs::ext4::dirent::new_dir_entry;
use kernelx_fs::ext4::htree_hash::HTreeHashVersion;
use kernelx_fs::ext4::htree_index::{
    htree_entry_block, htree_entry_hash, htree_find_position, htree_hash_matches, parse_htree_entries, parse_htree_node,
    parse_htree_root,
};

fn put16(raw: &mut [u8], off: usize, v: u16) {
    raw[off..off + 2].copy_from_slice(&v.to_le_bytes());
}

fn put32(raw: &mut [u8], off: usize, v: u32) {
    raw[off..off + 4].copy_from_slice(&v.to_le_bytes());
}

/// A 1 KiB root block of a hashed directory with three index entries: hashes 0, 0x100 and
/// 0x200 pointing at logical blocks 1, 2 and 3.
fn root_block(levels: u8) -> Vec<u8> {
    let mut raw = vec![0u8; 1024];
    put32(&mut raw, 0, 12);
    put16(&mut raw, 4, 12);
    raw[6] = 1;
    raw[7] = 2;
    raw[8] = b'.';
    put32(&mut raw, 12, 2);
    put16(&mut raw, 16, 1012);
    raw[18] = 2;
    raw[19] = 2;
    raw[20] = b'.';
    raw[21] = b'.';
    raw[28] = 1;
    raw[29] = 8;
    raw[30] = levels;
    put16(&mut raw, 32, 124);
    put16(&mut raw, 34, 3);
    put32(&mut raw, 36, 1);
    put32(&mut raw, 40, 0x100);
    put32(&mut raw, 44, 2);
    put32(&mut raw, 48, 0x200);
    put32(&mut raw, 52, 3);
    raw
}

fn context() -> Context {
    Context {
        fsno: 0,
        dev: BlockDevice::new(vec![0u8; 64 * 1024], false),
        uuid: vec![0u8; 16],
        hash_seed: vec![0u32; 4],
        flags: 0,
        checksum_seed: 0,
        metadata_csum: false,
        block_size: 1024,
        blocks_count: 64,
        first_data_block: 1,
        blocks_per_group: 8192,
        inodes_per_group: 16,
        inode_size: 256,
        desc_size: 32,
        groups_count: 1,
        feature_compat: 0,
        feature_incompat: 0,
        feature_ro_compat: 0,
    }
}

#[test]
fn hashed_root_block_is_parsed() {
    let raw = root_block(0);
    let (version, node, levels) = parse_htree_root(&raw, 1024, false, 0).unwrap();
    assert_eq!(version, HTreeHashVersion::HalfMd4);
    assert_eq!(levels, 0);
    assert_eq!(node.entry_offset, 32);
    assert_eq!(node.limit, 124);
    assert_eq!(node.count, 3);
}

#[test]
fn hashed_root_with_checksums_has_a_smaller_table() {
    let mut raw = root_block(0);
    put16(&mut raw, 32, 123);
    let (_, node, _) = parse_htree_root(&raw, 1024, true, 0).unwrap();
    assert_eq!(node.limit, 123);
    assert_eq!(parse_htree_root(&raw, 1024, false, 0).err(), Some(Errno::EIO));
}

#[test]
fn hashed_root_errors() {
    assert_eq!(parse_htree_root(&root_block(2), 1024, false, 0).err(), Some(Errno::EOPNOTSUPP));
    let mut bad = root_block(0);
    put16(&mut bad, 4, 16);
    assert_eq!(parse_htree_root(&bad, 1024, false, 0).err(), Some(Errno::EIO));
    let mut unknown = root_block(0);
    unknown[28] = 9;
    assert_eq!(parse_htree_root(&unknown, 1024, false, 0).err(), Some(Errno::EOPNOTSUPP));
    assert_eq!(parse_htree_root(&root_block(0)[..512], 1024, false, 0).err(), Some(Errno::EIO));
}

#[test]
fn index_table_counts_are_checked() {
    let mut raw = root_block(0);
    assert!(parse_htree_entries(&raw, 32, 124).is_ok());
    assert_eq!(parse_htree_entries(&raw, 32, 100).err(), Some(Errno::EIO));
    put16(&mut raw, 34, 0);
    assert_eq!(parse_htree_entries(&raw, 32, 124).err(), Some(Errno::EIO));
    put16(&mut raw, 34, 125);
    assert_eq!(parse_htree_entries(&raw, 32, 124).err(), Some(Errno::EIO));
    assert_eq!(parse_htree_entries(&raw, 1022, 1).err(), Some(Errno::EIO));
}

#[test]
fn hash_picks_the_entry_it_falls_under() {
    let raw = root_block(0);
    let (_, node, _) = parse_htree_root(&raw, 1024, false, 0).unwrap();
    assert_eq!(htree_find_position(&raw, node, 0x50), 0);
    assert_eq!(htree_find_position(&raw, node, 0x100), 1);
    assert_eq!(htree_find_position(&raw, node, 0x1ff), 1);
    assert_eq!(htree_find_position(&raw, node, 0x200), 2);
    assert_eq!(htree_find_position(&raw, node, 0xffff_ffff), 2);
    assert_eq!(htree_entry_block(&raw, node, 0), Ok(1));
    assert_eq!(htree_entry_block(&raw, node, 2), Ok(3));
    assert_eq!(htree_entry_block(&raw, node, 3), Err(Errno::EIO));
    assert_eq!(htree_entry_hash(&raw, node, 1), Ok(0x100));
    assert!(htree_hash_matches(&raw, node, 2, 0x200));
    assert!(!htree_hash_matches(&raw, node, 2, 0x100));
    assert!(!htree_hash_matches(&raw, node, 3, 0x200));
}

#[test]
fn hashed_index_node_is_parsed() {
    let mut raw = vec![0u8; 1024];
    put16(&mut raw, 4, 1024);
    put16(&mut raw, 8, 127);
    put16(&mut raw, 10, 1);
    put32(&mut raw, 12, 7);
    let node = parse_htree_node(&raw, 1024, false).unwrap();
    assert_eq!(node.entry_offset, 8);
    assert_eq!(node.limit, 127);
    assert_eq!(node.count, 1);
    assert_eq!(htree_entry_block(&raw, node, 0), Ok(7));
    put16(&mut raw, 4, 12);
    assert_eq!(parse_htree_node(&raw, 1024, false).err(), Some(Errno::EIO));
}

#[test]
fn written_block_reads_back() {
    let mut ctx = context();
    let data: Vec<u8> = (0..1024u32).map(|i| (i % 251) as u8).collect();
    assert_eq!(ctx.write_fs_block(5, &data), Ok(()));
    assert_eq!(ctx.read_fs_block(5), Ok(data));
    assert_eq!(ctx.read_fs_block(6), Ok(vec![0u8; 1024]));
}

/// One group of 1 KiB blocks with its descriptors at block 2 and inode table from block 5, and
/// a hashed directory, inode 12, whose two blocks are 20 (the index root, one entry pointing at
/// logical block 1) and 21 (a leaf holding "hello" for inode 13).
fn hashed_directory() -> (Context, Ext4Inode) {
    let mut img = vec![0u8; 64 * 1024];
    let gd = 2 * 1024;
    img[gd..gd + 4].copy_from_slice(&3u32.to_le_bytes());
    img[gd + 4..gd + 8].copy_from_slice(&4u32.to_le_bytes());
    img[gd + 8..gd + 12].copy_from_slice(&5u32.to_le_bytes());
    let mut root = root_block(0);
    put16(&mut root, 34, 1);
    img[20 * 1024..21 * 1024].copy_from_slice(&root);
    let mut ctx = context();
    ctx.dev = BlockDevice::new(img, false);
    let mut leaf = DirBlock {
        pblk: 21,
        raw: Vec::new(),
        entries: vec![new_dir_entry(13, b"hello", Ext4DirEntryFileType::Regular, 1024).unwrap()],
    };
    assert_eq!(ctx.write_dir_block(12, 0, &mut leaf), Ok(()));
    let mut raw = vec![0u8; 256];
    put16(&mut raw, 40, 0xF30A);
    put16(&mut raw, 42, 1);
    put16(&mut raw, 44, 4);
    put16(&mut raw, 56, 2);
    put32(&mut raw, 60, 20);
    let dir = Ext4Inode {
        raw,
        ino: 12,
        i_mode: 0o040755,
        i_uid: 0,
        i_gid: 0,
        i_links_count: 2,
        i_atime: 0,
        i_ctime: 0,
        i_mtime: 0,
        i_size: 2048,
        i_blocks: 4,
        i_flags: INODE_FLAG_EXTENTS | INODE_FLAG_INDEX,
        i_generation: 0,
        i_file_acl: 0,
        i_extra_isize: 0,
    };
    (ctx, dir)
}

#[test]
fn name_is_removed_from_the_leaf_the_index_picks() {
    let (mut ctx, mut dir) = hashed_directory();
    assert_eq!(ctx.remove_dirent(12, &mut dir, b"hello"), Ok((13, 1)));
    let leaf = ctx.read_dir_block(12, 0, 21).unwrap();
    assert!(leaf.entries.iter().all(|e| e.inode == 0 || e.name != b"hello".to_vec()));
    assert_eq!(ctx.remove_dirent(12, &mut dir, b"hello"), Err(Errno::ENOENT));
}

#[test]
fn name_is_added_to_the_leaf_the_index_picks() {
    let (mut ctx, mut dir) = hashed_directory();
    assert_eq!(ctx.insert_dirent(12, &mut dir, b"world", 14, Ext4DirEntryFileType::Regular), Ok(()));
    let leaf = ctx.read_dir_block(12, 0, 21).unwrap();
    assert!(leaf.entries.iter().any(|e| e.inode == 14 && e.name == b"world".to_vec()));
    assert!(leaf.entries.iter().any(|e| e.inode == 13 && e.name == b"hello".to_vec()));
    assert_eq!(dir.i_size, 2048);
}

#[test]
fn dotdot_of_a_hashed_directory_is_repointed() {
    let (mut ctx, dir) = hashed_directory();
    assert_eq!(ctx.patch_dotdot(12, &dir, 7), Ok(()));
    let root = ctx.read_fs_block(20).unwrap();
    assert_eq!(u32::from_le_bytes([root[12], root[13], root[14], root[15]]), 7);
    assert_eq!(&root[20..22], b"..");
}
