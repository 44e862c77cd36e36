use kernelx_fs::ext4::defs::ExtentLeaf;
use kernelx_fs::ext4::extent_map::{insert_extent_leaf, remove_extent_leaves, validate_extent_leaves, find_in_leaves,
    extent_data_blocks};
use kernelx_fs::ext4::data_map::{advance_extent_cursor, extent_end_lblk, extent_contains_lblk, mapped_read_pblk,
    mapped_write_pblk, full_block_run_len, hole_run_blocks, extent_len_blocks};
use kernelx_fs::errno::Errno;

fn leaf(b: u32, len: u16, start: u64) -> ExtentLeaf {
    ExtentLeaf { ee_block: b, ee_len_raw: len, ee_start: start }
}

#[test]
fn insert_into_empty_makes_one_block_leaf() {
    let mut v: Vec<ExtentLeaf> = Vec::new();
    insert_extent_leaf(&mut v, 5, 100).unwrap();
    assert_eq!(v, vec![leaf(5, 1, 100)]);
}

#[test]
fn insert_merges_with_neighbours() {
    let mut v = vec![leaf(5, 1, 100)];
    insert_extent_leaf(&mut v, 6, 101).unwrap();
    assert_eq!(v, vec![leaf(5, 2, 100)]);
    insert_extent_leaf(&mut v, 4, 99).unwrap();
    assert_eq!(v, vec![leaf(4, 3, 99)]);
}

#[test]
fn insert_of_mapped_block_is_eexist() {
    let mut v = vec![leaf(5, 3, 100)];
    assert_eq!(insert_extent_leaf(&mut v, 6, 500), Err(Errno::EEXIST));
    assert_eq!(v, vec![leaf(5, 3, 100)]);
}

#[test]
fn insert_keeps_unrelated_leaves_apart() {
    let mut v = vec![leaf(0, 2, 10)];
    insert_extent_leaf(&mut v, 10, 50).unwrap();
    assert_eq!(v, vec![leaf(0, 2, 10), leaf(10, 1, 50)]);
}

#[test]
fn remove_splits_a_leaf() {
    let v = vec![leaf(0, 10, 100)];
    let (kept, freed) = remove_extent_leaves(&v, 3, 5).unwrap();
    assert_eq!(kept, vec![leaf(0, 3, 100), leaf(6, 4, 106)]);
    assert_eq!(freed, vec![103, 104, 105]);
}

#[test]
fn remove_everything_frees_all_blocks() {
    let v = vec![leaf(0, 2, 7), leaf(4, 1, 20)];
    let (kept, freed) = remove_extent_leaves(&v, 0, u32::MAX).unwrap();
    assert!(kept.is_empty());
    assert_eq!(freed, vec![7, 8, 20]);
}

#[test]
fn validate_rejects_overlap_and_empty_leaves() {
    assert_eq!(validate_extent_leaves(&[leaf(0, 4, 1), leaf(2, 1, 9)]), Err(Errno::EIO));
    assert_eq!(validate_extent_leaves(&[leaf(0, 0, 1)]), Err(Errno::EIO));
    assert_eq!(validate_extent_leaves(&[leaf(0, 40000, 1)]), Err(Errno::EOPNOTSUPP));
    assert_eq!(validate_extent_leaves(&[leaf(0, 4, 1), leaf(4, 1, 9)]), Ok(()));
}

#[test]
fn find_in_leaves_maps_and_skips_uninitialised() {
    let v = vec![leaf(0, 2, 10), leaf(5, 32768 + 3, 40)];
    assert_eq!(find_in_leaves(&v, 1), Some(11));
    assert_eq!(find_in_leaves(&v, 3), None);
    assert_eq!(find_in_leaves(&v, 6), None);
}

#[test]
fn data_blocks_sum_the_lengths() {
    assert_eq!(extent_data_blocks(&[leaf(0, 2, 10), leaf(5, 32768 + 3, 40)]), Ok(5));
}

#[test]
fn cursor_moves_to_the_leaf_ending_past_the_block() {
    let v = vec![leaf(0, 2, 10), leaf(4, 2, 20), leaf(9, 1, 30)];
    let mut idx = 0usize;
    advance_extent_cursor(&v, &mut idx, 5);
    assert_eq!(idx, 1);
    advance_extent_cursor(&v, &mut idx, 7);
    assert_eq!(idx, 2);
    advance_extent_cursor(&v, &mut idx, 12);
    assert_eq!(idx, 3);
}

#[test]
fn cursor_helpers() {
    let e = leaf(4, 3, 20);
    assert_eq!(extent_end_lblk(e), Some(7));
    assert_eq!(extent_end_lblk(leaf(u32::MAX, 2, 0)), None);
    assert!(extent_contains_lblk(e, 6));
    assert!(!extent_contains_lblk(e, 7));
    assert_eq!(extent_len_blocks(32768 + 5), 5);
    let v = vec![leaf(4, 3, 20), leaf(9, 32768 + 2, 50)];
    assert_eq!(mapped_read_pblk(&v, 0, 5), Some(21));
    assert_eq!(mapped_read_pblk(&v, 1, 9), None);
    assert_eq!(mapped_write_pblk(&v, 1, 10), Some(51));
    assert_eq!(full_block_run_len(e, 5, 4096 * 10, 4096), 2);
    assert_eq!(full_block_run_len(e, 5, 4096, 4096), 1);
    assert_eq!(hole_run_blocks(&v, 1, 7), 2);
    assert_eq!(hole_run_blocks(&v, 2, 7), usize::MAX);
}
