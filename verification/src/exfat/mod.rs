//! A read-only exFAT file system over a block device.
pub mod name;
pub mod info;
pub mod superblock;
pub mod inode;
