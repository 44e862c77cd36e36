use kernelx_fs::blockdev::BlockDevice;
use kernelx_fs::errno::Errno;
use kernelx_fs::ext4::ctx::Context;
use kernelx_fs::ext4::defs::{Ext4Inode, INODE_FLAG_EXTENTS};
use kernelx_fs::ext4::vnode::Inode;

fn context() -> Context {
    Context {
        fsno: 0,
        dev: BlockDevice::new(vec![0u8; 64 * 1024], false),
        uuid: vec![0u8; 16],
        hash_seed: vec![0u32; 4],
        flags: 0,
        checksum_seed: 0,
        metadata_csum: false,
        block_size: 1024,
        blocks_count: 64,
        first_data_block: 1,
        blocks_per_group: 8192,
        inodes_per_group: 16,
        inode_size: 256,
        desc_size: 32,
        groups_count: 1,
        feature_compat: 0,
        feature_incompat: 0,
        feature_ro_compat: 0,
    }
}

fn inode(mode: u16, size: u64) -> Ext4Inode {
    Ext4Inode {
        raw: vec![0u8; 256],
        ino: 12,
        i_mode: mode,
        i_uid: 0,
        i_gid: 0,
        i_links_count: 1,
        i_atime: 0,
        i_ctime: 0,
        i_mtime: 0,
        i_size: size,
        i_blocks: 0,
        i_flags: INODE_FLAG_EXTENTS,
        i_generation: 0,
        i_file_acl: 0,
        i_extra_isize: 0,
    }
}

#[test]
fn cached_write_is_read_back_from_the_cache() {
    let mut ctx = context();
    let mut node = Inode::new(0, inode(0o100644, 0));
    assert_eq!(node.writeat(&mut ctx, b"hello world", 5000), Ok(11));
    assert_eq!(node.inode.i_size, 5011);
    assert!(node.metadata_dirty);
    assert_eq!(node.page_cache.dirty_pages(), vec![1]);
    let mut buf = vec![0xffu8; 20];
    assert_eq!(node.readat(&mut ctx, &mut buf, 4995, false), Ok(16));
    assert_eq!(&buf[..5], &[0, 0, 0, 0, 0]);
    assert_eq!(&buf[5..16], b"hello world");
    assert_eq!(buf[16], 0xff);
    assert!(ctx.dev.bytes().iter().all(|b| *b == 0));
}

#[test]
fn cached_write_spans_pages() {
    let mut ctx = context();
    let mut node = Inode::new(0, inode(0o100644, 0));
    let data: Vec<u8> = (0..6000u32).map(|i| (i % 253) as u8).collect();
    assert_eq!(node.writeat(&mut ctx, &data, 4000), Ok(6000));
    assert_eq!(node.inode.i_size, 10000);
    assert_eq!(node.page_cache.dirty_pages(), vec![0, 1, 2]);
    let mut buf = vec![0u8; 6000];
    assert_eq!(node.readat(&mut ctx, &mut buf, 4000, false), Ok(6000));
    assert_eq!(buf, data);
    let mut tail = vec![0u8; 100];
    assert_eq!(node.readat(&mut ctx, &mut tail, 9950, false), Ok(50));
    assert_eq!(&tail[..50], &data[5950..]);
}

#[test]
fn writes_refused_where_the_original_refuses() {
    let mut ctx = context();
    let mut dir = Inode::new(0, inode(0o040755, 0));
    assert_eq!(dir.writeat(&mut ctx, b"x", 0), Err(Errno::EISDIR));
    let mut node = Inode::new(0, inode(0o100644, 0));
    assert_eq!(node.writeat(&mut ctx, b"", 0), Ok(0));
    node.deleted = true;
    assert_eq!(node.writeat(&mut ctx, b"x", 0), Err(Errno::EIO));
    let mut buf = vec![0u8; 4];
    assert_eq!(node.readat(&mut ctx, &mut buf, 0, false), Err(Errno::EIO));
    let mut node = Inode::new(0, inode(0o100644, 0));
    assert_eq!(node.writeat(&mut ctx, b"x", usize::MAX), Err(Errno::EINVAL));
}

#[test]
fn flush_of_a_directory_empties_its_cache() {
    let mut ctx = context();
    let mut dir = Inode::new(0, inode(0o040755, 0));
    dir.page_cache.insert_frame(0, vec![0u8; 4096]);
    assert_eq!(dir.flush_dirty_pages(&mut ctx), Ok(()));
    assert!(dir.page_cache.get_frame(0).is_none());
}

#[test]
fn reads_past_the_end_are_empty() {
    let mut ctx = context();
    let mut node = Inode::new(0, inode(0o100644, 0));
    assert_eq!(node.writeat(&mut ctx, b"abc", 0), Ok(3));
    let mut buf = vec![0u8; 8];
    assert_eq!(node.readat(&mut ctx, &mut buf, 3, false), Ok(0));
    assert_eq!(node.readat(&mut ctx, &mut buf, 1, false), Ok(2));
    assert_eq!(&buf[..2], b"bc");
}
