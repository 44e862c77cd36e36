//! Verified on-disk logic of the KernelX file-system layer.
use vstd::prelude::*;

pub mod errno;
pub mod bytes;
pub mod crc;
pub mod blockdev;
pub mod uapi;
pub mod ext4;
pub mod vfs;
pub mod file;
pub mod devfs;
pub mod exfat;

verus! {
}
