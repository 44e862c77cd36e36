use kernelx_fs::ext4::block_ranges::{readat_ref, writeat_ref_start, writeat_ref_step, BlockCopy, WriteRefAction};

fn piece(iblock: usize, block_off: usize, len: usize, cursor: usize) -> BlockCopy {
    BlockCopy { iblock, block_off, len, cursor }
}

#[test]
fn read_pieces_split_at_block_edges() {
    let (n, p) = readat_ref(10000, 4000, 100);
    assert_eq!(n, 100);
    assert_eq!(p, vec![piece(0, 4000, 96, 0), piece(1, 0, 4, 96)]);
    let (n, p) = readat_ref(5000, 4096, 8192);
    assert_eq!(n, 904);
    assert_eq!(p, vec![piece(1, 0, 904, 0)]);
    let (n, p) = readat_ref(20000, 0, 9000);
    assert_eq!(n, 9000);
    assert_eq!(p, vec![piece(0, 0, 4096, 0), piece(1, 0, 4096, 4096), piece(2, 0, 808, 8192)]);
    assert_eq!(readat_ref(100, 100, 10).0, 0);
    assert_eq!(readat_ref(100, 0, 0).0, 0);
}

#[test]
fn write_steps_of_a_growing_write() {
    let (mut s, a) = writeat_ref_start(0, 100, 9000);
    assert_eq!(a, WriteRefAction::MapBlock { iblk: 0, append: true });
    assert_eq!(writeat_ref_step(&mut s, Some(50)), WriteRefAction::Write { pblock: 50, block_off: 100, from: 0, len: 3996 });
    assert_eq!(writeat_ref_step(&mut s, None), WriteRefAction::MapBlock { iblk: 1, append: true });
    assert_eq!(writeat_ref_step(&mut s, Some(60)), WriteRefAction::MapBlock { iblk: 2, append: true });
    assert_eq!(writeat_ref_step(&mut s, Some(61)), WriteRefAction::Write { pblock: 60, block_off: 0, from: 3996, len: 4096 });
    assert_eq!(writeat_ref_step(&mut s, None), WriteRefAction::Write { pblock: 61, block_off: 0, from: 8092, len: 908 });
    assert_eq!(writeat_ref_step(&mut s, None), WriteRefAction::Finish { written: 9000, new_size: Some(9100) });
}

#[test]
fn write_steps_remap_a_block_that_breaks_the_run() {
    let (mut s, a) = writeat_ref_start(8192, 0, 8192);
    assert_eq!(a, WriteRefAction::MapBlock { iblk: 0, append: false });
    assert_eq!(writeat_ref_step(&mut s, Some(10)), WriteRefAction::MapBlock { iblk: 1, append: false });
    assert_eq!(writeat_ref_step(&mut s, Some(20)), WriteRefAction::Write { pblock: 10, block_off: 0, from: 0, len: 4096 });
    assert_eq!(writeat_ref_step(&mut s, None), WriteRefAction::MapBlock { iblk: 1, append: false });
    assert_eq!(writeat_ref_step(&mut s, Some(20)), WriteRefAction::Write { pblock: 20, block_off: 0, from: 4096, len: 4096 });
    assert_eq!(writeat_ref_step(&mut s, None), WriteRefAction::Finish { written: 8192, new_size: None });
    let (_, a) = writeat_ref_start(5, 0, 0);
    assert_eq!(a, WriteRefAction::Finish { written: 0, new_size: None });
}
