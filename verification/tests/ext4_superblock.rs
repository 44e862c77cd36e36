use kernelx_fs::blockdev::BlockDevice;
use kernelx_fs::errno::Errno;
use kernelx_fs::ext4::disk_superblock::{load_superblock, validate_feature_set, INCOMPAT_BIT64, INCOMPAT_EXTENTS,
    INCOMPAT_INLINE_DATA, RO_COMPAT_METADATA_CSUM, RO_COMPAT_VERITY};

fn put16(img: &mut [u8], off: usize, v: u16) {
    img[off..off + 2].copy_from_slice(&v.to_le_bytes());
}
fn put32(img: &mut [u8], off: usize, v: u32) {
    img[off..off + 4].copy_from_slice(&v.to_le_bytes());
}

fn image(incompat: u32, ro_compat: u32) -> Vec<u8> {
    let mut img = vec![0u8; 4096];
    let sb = 1024;
    put32(&mut img, sb, 128);
    put32(&mut img, sb + 0x04, 0x1000);
    put32(&mut img, sb + 0x0C, 0x800);
    put32(&mut img, sb + 0x10, 100);
    put32(&mut img, sb + 0x14, 0);
    put32(&mut img, sb + 0x18, 2);
    put32(&mut img, sb + 0x20, 32768);
    put32(&mut img, sb + 0x28, 128);
    put16(&mut img, sb + 0x38, 0xEF53);
    put16(&mut img, sb + 0x58, 256);
    put32(&mut img, sb + 0x5C, 0x4);
    put32(&mut img, sb + 0x60, incompat);
    put32(&mut img, sb + 0x64, ro_compat);
    put16(&mut img, sb + 0xFE, 64);
    put32(&mut img, sb + 0x150, 1);
    put32(&mut img, sb + 0x158, 2);
    img
}

#[test]
fn superblock_fields_of_a_64bit_volume() {
    let dev = BlockDevice::new(image(INCOMPAT_EXTENTS | INCOMPAT_BIT64, RO_COMPAT_METADATA_CSUM), true);
    let sb = load_superblock(&dev).unwrap();
    assert_eq!(sb.block_size, 4096);
    assert_eq!(sb.blocks_count, 0x1_0000_1000);
    assert_eq!(sb.free_blocks_count, 0x2_0000_0800);
    assert_eq!((sb.inodes_count, sb.free_inodes_count, sb.inode_size, sb.desc_size), (128, 100, 256, 64));
    assert!(sb.features.has_journal);
    assert!(!sb.features.needs_recovery);
    assert!(!sb.features.requires_readonly);
    assert_eq!(validate_feature_set(&sb.features), Ok(()));
}

#[test]
fn superblock_of_a_32bit_volume_ignores_high_words() {
    let dev = BlockDevice::new(image(INCOMPAT_EXTENTS, 0x8000_0000), true);
    let sb = load_superblock(&dev).unwrap();
    assert_eq!(sb.blocks_count, 0x1000);
    assert_eq!(sb.desc_size, 32);
    assert!(sb.features.requires_readonly);
}

#[test]
fn superblock_errors() {
    let mut img = image(0, 0);
    put16(&mut img, 1024 + 0x38, 0x1234);
    assert_eq!(load_superblock(&BlockDevice::new(img, true)).err(), Some(Errno::EINVAL));
    let mut img = image(0, 0);
    put32(&mut img, 1024 + 0x18, 7);
    assert_eq!(load_superblock(&BlockDevice::new(img, true)).err(), Some(Errno::EINVAL));
    assert_eq!(load_superblock(&BlockDevice::new(vec![0u8; 1500], true)).err(), Some(Errno::EIO));
}

#[test]
fn unsupported_features_are_refused() {
    let dev = BlockDevice::new(image(INCOMPAT_INLINE_DATA, 0), true);
    let sb = load_superblock(&dev).unwrap();
    assert_eq!(validate_feature_set(&sb.features), Err(Errno::EOPNOTSUPP));
    let dev = BlockDevice::new(image(INCOMPAT_EXTENTS, RO_COMPAT_VERITY), true);
    let sb = load_superblock(&dev).unwrap();
    assert_eq!(validate_feature_set(&sb.features), Err(Errno::EOPNOTSUPP));
}
