use kernelx_fs::blockdev::BlockDevice;
use kernelx_fs::errno::Errno;
use kernelx_fs::exfat::inode::Inode;
use kernelx_fs::exfat::name::decode_name;
use kernelx_fs::exfat::superblock::{SuperBlock, EXFAT_SUPER_MAGIC};
use kernelx_fs::vfs::FileType;

fn put16(img: &mut [u8], off: usize, v: u16) {
    img[off..off + 2].copy_from_slice(&v.to_le_bytes());
}
fn put32(img: &mut [u8], off: usize, v: u32) {
    img[off..off + 4].copy_from_slice(&v.to_le_bytes());
}
fn put64(img: &mut [u8], off: usize, v: u64) {
    img[off..off + 8].copy_from_slice(&v.to_le_bytes());
}

/// Writes the entry set of a file named `name` at entry slot `slot` of the directory at `dir`.
fn file_set(img: &mut [u8], dir: usize, slot: usize, name: &str, is_dir: bool, no_fat_chain: bool, first: u32, len: u64) {
    let e = dir + slot * 32;
    let units: Vec<u16> = name.encode_utf16().collect();
    let name_entries = (units.len() + 14) / 15;
    img[e] = 0x85;
    img[e + 1] = (1 + name_entries) as u8;
    put16(img, e + 4, if is_dir { 0x10 } else { 0x20 });
    let s = e + 32;
    img[s] = 0xc0;
    img[s + 1] = if no_fat_chain { 0x03 } else { 0x01 };
    img[s + 3] = units.len() as u8;
    put32(img, s + 20, first);
    put64(img, s + 24, len);
    for (i, chunk) in units.chunks(15).enumerate() {
        let n = s + 32 + i * 32;
        img[n] = 0xc1;
        for (j, u) in chunk.iter().enumerate() {
            put16(img, n + 2 + j * 2, *u);
        }
    }
}

/// A volume of ten 512-byte sectors: the allocation table in sector 1, clusters 2..=9 of one
/// sector each from sector 2. The root (cluster 2) holds `hello.txt` (cluster 3, contiguous)
/// and the directory `sub` (cluster 4), which holds `big.bin` (clusters 5 and 6, chained).
fn image() -> Vec<u8> {
    let mut img = vec![0u8; 10 * 512];
    img[3..11].copy_from_slice(b"EXFAT   ");
    put64(&mut img, 72, 10);
    put32(&mut img, 80, 1);
    put32(&mut img, 84, 1);
    put32(&mut img, 88, 2);
    put32(&mut img, 92, 8);
    put32(&mut img, 96, 2);
    img[108] = 9;
    img[109] = 0;
    img[110] = 1;
    img[510] = 0x55;
    img[511] = 0xaa;
    let fat = 512;
    put32(&mut img, fat + 2 * 4, 0xffff_ffff);
    put32(&mut img, fat + 3 * 4, 0xffff_ffff);
    put32(&mut img, fat + 4 * 4, 0xffff_ffff);
    put32(&mut img, fat + 5 * 4, 6);
    put32(&mut img, fat + 6 * 4, 0xffff_ffff);
    let cluster = |c: usize| (2 + (c - 2)) * 512;
    file_set(&mut img, cluster(2), 0, "hello.txt", false, true, 3, 13);
    file_set(&mut img, cluster(2), 3, "sub", true, false, 4, 512);
    img[cluster(3)..cluster(3) + 13].copy_from_slice(b"Hello, exFAT!");
    file_set(&mut img, cluster(4), 0, "big.bin", false, false, 5, 700);
    for i in 0..700 {
        let pos = if i < 512 { cluster(5) + i } else { cluster(6) + (i - 512) };
        img[pos] = (i % 251) as u8;
    }
    img
}

fn mount() -> SuperBlock {
    SuperBlock::new(BlockDevice::new(image(), true)).ok().unwrap()
}

#[test]
fn exfat_mounts_and_reports_statfs() {
    let sb = mount();
    let st = sb.statfs();
    assert_eq!(st.f_type, EXFAT_SUPER_MAGIC);
    assert_eq!(st.f_bsize, 512);
    assert_eq!(st.f_blocks, 8);
    assert_eq!(st.f_files, 1);
    assert_eq!(st.f_namelen, 255);
    assert_eq!(st.f_flag, 1);
    assert_eq!(sb.get_root_ino(), 1);
    assert!(sb.is_readonly());
}

#[test]
fn exfat_rejects_a_bad_boot_sector() {
    let mut img = image();
    img[3] = b'N';
    assert_eq!(SuperBlock::new(BlockDevice::new(img, true)).err(), Some(Errno::EINVAL));
    let mut img = image();
    img[511] = 0;
    assert_eq!(SuperBlock::new(BlockDevice::new(img, true)).err(), Some(Errno::EINVAL));
    let mut img = image();
    put32(&mut img, 96, 10);
    assert_eq!(SuperBlock::new(BlockDevice::new(img, true)).err(), Some(Errno::EINVAL));
    let mut img = image();
    img.truncate(9 * 512);
    assert_eq!(SuperBlock::new(BlockDevice::new(img, true)).err(), Some(Errno::EINVAL));
    assert_eq!(SuperBlock::new(BlockDevice::new(vec![0u8; 100], true)).err(), Some(Errno::EIO));
}

#[test]
fn exfat_lists_the_root() {
    let mut sb = mount();
    let (d0, n0) = sb.inner.get_dent(1, 0).unwrap().unwrap();
    assert_eq!((d0.name.as_slice(), d0.ino, d0.file_type, n0), (&b"."[..], 1, FileType::Directory, 1));
    let (d1, n1) = sb.inner.get_dent(1, 1).unwrap().unwrap();
    assert_eq!((d1.name.as_slice(), d1.ino, n1), (&b".."[..], 1, 2));
    let (d2, n2) = sb.inner.get_dent(1, 2).unwrap().unwrap();
    assert_eq!((d2.name.as_slice(), d2.ino, d2.file_type, d2.len, n2), (&b"hello.txt"[..], 2, FileType::Regular, 9, 3));
    let (d3, n3) = sb.inner.get_dent(1, 3).unwrap().unwrap();
    assert_eq!((d3.name.as_slice(), d3.ino, d3.file_type, n3), (&b"sub"[..], 3, FileType::Directory, 4));
    assert!(sb.inner.get_dent(1, 4).unwrap().is_none());
    assert_eq!(sb.statfs().f_files, 3);
}

#[test]
fn exfat_lookup_numbers_each_file_once() {
    let mut sb = mount();
    let a = sb.inner.lookup(1, b"sub").unwrap();
    let b = sb.inner.lookup(1, b"sub").unwrap();
    assert_eq!(a, 2);
    assert_eq!(a, b);
    assert_eq!(sb.statfs().f_files, 2);
    assert_eq!(sb.inner.lookup(1, b"."), Ok(1));
    assert_eq!(sb.inner.lookup(1, b".."), Ok(1));
    assert_eq!(sb.inner.lookup(a, b".."), Ok(1));
    assert_eq!(sb.inner.lookup(1, b"missing"), Err(Errno::ENOENT));
    assert_eq!(sb.inner.lookup(99, b"sub"), Err(Errno::ENOENT));
    let hello = sb.inner.lookup(1, b"hello.txt").unwrap();
    assert_eq!(sb.inner.lookup(hello, b"x"), Err(Errno::ENOTDIR));
    assert!(sb.get_inode(hello).is_ok());
    assert_eq!(sb.get_inode(7).err(), Some(Errno::ENOENT));
}

#[test]
fn exfat_reads_a_contiguous_file() {
    let mut sb = mount();
    let ino = sb.inner.lookup(1, b"hello.txt").unwrap();
    let mut buf = vec![0xaau8; 32];
    assert_eq!(sb.inner.read_inode(ino, &mut buf, 0), Ok(13));
    assert_eq!(&buf[..13], b"Hello, exFAT!");
    assert_eq!(buf[13], 0xaa);
    let mut buf = vec![0u8; 6];
    assert_eq!(sb.inner.read_inode(ino, &mut buf, 7), Ok(6));
    assert_eq!(&buf[..], b"exFAT!");
    assert_eq!(sb.inner.read_inode(ino, &mut buf, 13), Ok(0));
    let mut empty: Vec<u8> = Vec::new();
    assert_eq!(sb.inner.read_inode(ino, &mut empty, 0), Ok(0));
    assert_eq!(sb.inner.read_inode(1, &mut buf, 0), Err(Errno::EISDIR));
}

#[test]
fn exfat_reads_across_a_cluster_chain() {
    let mut sb = mount();
    let sub = sb.inner.lookup(1, b"sub").unwrap();
    let big = sb.inner.lookup(sub, b"big.bin").unwrap();
    assert_eq!(sb.inner.inode_size(big), Ok(700));
    let mut buf = vec![0u8; 100];
    assert_eq!(sb.inner.read_inode(big, &mut buf, 480), Ok(100));
    for (i, b) in buf.iter().enumerate() {
        assert_eq!(*b, ((480 + i) % 251) as u8);
    }
    let mut buf = vec![0u8; 1000];
    assert_eq!(sb.inner.read_inode(big, &mut buf, 0), Ok(700));
    assert_eq!(buf[699], (699 % 251) as u8);
}

#[test]
fn exfat_broken_chain_is_eio() {
    let mut img = image();
    put32(&mut img, 512 + 5 * 4, 0xffff_fff7);
    let mut sb = SuperBlock::new(BlockDevice::new(img, true)).ok().unwrap();
    let sub = sb.inner.lookup(1, b"sub").unwrap();
    let big = sb.inner.lookup(sub, b"big.bin").unwrap();
    let mut buf = vec![0u8; 100];
    assert_eq!(sb.inner.read_inode(big, &mut buf, 480), Err(Errno::EIO));
    assert_eq!(sb.inner.read_inode(big, &mut buf, 0), Ok(100));
}

#[test]
fn exfat_stat_and_modes() {
    let mut sb = mount();
    let sub = sb.inner.lookup(1, b"sub").unwrap();
    let hello = sb.inner.lookup(1, b"hello.txt").unwrap();
    assert_eq!(sb.inner.inode_mode(1), Ok(0o040555));
    assert_eq!(sb.inner.inode_mode(hello), Ok(0o100555));
    assert_eq!(sb.inner.inode_size(1), Ok(512));
    assert_eq!(sb.inner.inode_type(sub), Ok(FileType::Directory));
    let st = sb.inner.inode_stat(hello).unwrap();
    assert_eq!((st.st_ino, st.st_nlink, st.st_size, st.st_blksize, st.st_blocks), (hello as u64, 1, 13, 512, 1));
    let st = sb.inner.inode_stat(1).unwrap();
    assert_eq!((st.st_nlink, st.st_size, st.st_blocks), (2, 512, 1));
    assert_eq!(sb.inner.inode_stat(42).err(), Some(Errno::ENOENT));
    assert!(sb.inner.has_inode(hello));
    assert!(!sb.inner.has_inode(0));
}

#[test]
fn exfat_files_refuse_changes() {
    let sb = mount();
    let inode: Inode = sb.get_inode(1).ok().unwrap();
    assert_eq!(inode.get_ino(), 1);
    assert_eq!(inode.writeat(b"x", 0), Err(Errno::EROFS));
    assert_eq!(inode.create(b"x", 0o644), Err(Errno::EROFS));
    assert_eq!(inode.unlink(b"x"), Err(Errno::EROFS));
    assert_eq!(inode.truncate(0), Err(Errno::EROFS));
    assert_eq!(inode.owner(), Ok((0, 0)));
    let mut buf = vec![0u8; 4];
    assert_eq!(inode.readat(&sb.inner, &mut buf, 0), Err(Errno::EISDIR));
}

#[test]
fn exfat_names_decode_from_utf16() {
    assert_eq!(decode_name(&[0x61, 0xe9, 0x20ac]), Ok(vec![0x61, 0xc3, 0xa9, 0xe2, 0x82, 0xac]));
    assert_eq!(decode_name(&[0xd83d, 0xde00]), Ok(vec![0xf0, 0x9f, 0x98, 0x80]));
    assert_eq!(decode_name(&[0xd83d]), Err(Errno::EIO));
    assert_eq!(decode_name(&[0xde00, 0x61]), Err(Errno::EIO));
    assert_eq!(decode_name(&[]), Ok(vec![]));
}
