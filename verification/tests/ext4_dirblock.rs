use kernelx_fs::blockdev::BlockDevice;
use kernelx_fs::ext4::ctx::Context;
use kernelx_fs::ext4::defs::{DirBlock, DirEntry2, Ext4DirEntryFileType};
use kernelx_fs::ext4::dirent::{insert_dirent_into_block, new_dir_entry};

fn context() -> Context {
    Context {
        fsno: 0,
        dev: BlockDevice::new(vec![0u8; 64 * 1024], false),
        uuid: vec![0u8; 16],
        hash_seed: vec![0u32; 4],
        flags: 0,
        checksum_seed: 0,
        metadata_csum: false,
        block_size: 1024,
        blocks_count: 64,
        first_data_block: 1,
        blocks_per_group: 8192,
        inodes_per_group: 16,
        inode_size: 256,
        desc_size: 32,
        groups_count: 1,
        feature_compat: 0,
        feature_incompat: 0,
        feature_ro_compat: 0,
    }
}

fn dots(ino: u32, parent: u32) -> Vec<DirEntry2> {
    vec![
        new_dir_entry(ino, b".", Ext4DirEntryFileType::Directory, 12).unwrap(),
        new_dir_entry(parent, b"..", Ext4DirEntryFileType::Directory, 1012).unwrap(),
    ]
}

#[test]
fn written_directory_block_is_read_back() {
    let mut ctx = context();
    let mut block = DirBlock { pblk: 20, raw: Vec::new(), entries: dots(12, 2) };
    assert_eq!(ctx.write_dir_block(12, 0, &mut block), Ok(()));
    assert_eq!(block.entries[1].entry_off, 12);
    let back = ctx.read_dir_block(12, 0, 20).unwrap();
    assert_eq!(back.entries.len(), 2);
    assert_eq!(back.entries[0].inode, 12);
    assert_eq!(back.entries[0].name, b".".to_vec());
    assert_eq!(back.entries[1].inode, 2);
    assert_eq!(back.entries[1].name, b"..".to_vec());
    assert_eq!(back.entries[1].rec_len, 1012);
    assert_eq!(back.raw, block.raw);
}

#[test]
fn inserted_name_is_read_back_from_the_block() {
    let mut ctx = context();
    let mut block = DirBlock { pblk: 21, raw: Vec::new(), entries: dots(12, 2) };
    assert_eq!(insert_dirent_into_block(&mut block, b"hello", 13, Ext4DirEntryFileType::Regular), Ok(true));
    assert_eq!(block.entries.len(), 3);
    assert_eq!(block.entries[1].rec_len, 12);
    assert_eq!(block.entries[2].rec_len, 1000);
    assert_eq!(ctx.write_dir_block(12, 0, &mut block), Ok(()));
    let back = ctx.read_dir_block(12, 0, 21).unwrap();
    assert_eq!(back.entries.len(), 3);
    assert_eq!(back.entries[2].inode, 13);
    assert_eq!(back.entries[2].name, b"hello".to_vec());
    assert_eq!(back.entries[2].file_type, 1);
    assert_eq!(back.entries[2].entry_off, 24);
}

#[test]
fn entries_that_do_not_fill_the_block_are_refused() {
    let mut ctx = context();
    let mut entries = dots(12, 2);
    entries[1].rec_len = 100;
    let mut block = DirBlock { pblk: 22, raw: Vec::new(), entries };
    assert_eq!(ctx.write_dir_block(12, 0, &mut block), Err(kernelx_fs::errno::Errno::EINVAL));
    assert!(ctx.dev.bytes().iter().all(|b| *b == 0));
}
