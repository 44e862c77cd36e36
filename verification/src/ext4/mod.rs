//! Native ext4 on-disk layer: superblock, group descriptors, bitmaps, inodes,
//! extent trees and directory blocks.
pub mod defs;
pub mod util;
pub mod bitmap;
pub mod ctx;
pub mod superblock;
pub mod io;
pub mod group_desc;


pub mod bitmap_io;
pub mod inode;
pub mod extent;
pub mod extent_map;
pub mod lookup;
pub mod dir;
pub mod dirent;
pub mod htree_hash;
pub mod htree_index;
pub mod balloc;
pub mod tree;
pub mod data_map;
pub mod dirops;
pub mod vnode;
pub mod file_io;
pub mod namespace;
pub mod page_cache;
pub mod writeback;
pub mod cached_io;
pub mod disk_superblock;
pub mod block_ranges;
