//! Device file system: device nodes and their files.
pub mod pty;
pub mod rtc;
pub mod loop_dev;
pub mod nodes;
pub mod superblock;
