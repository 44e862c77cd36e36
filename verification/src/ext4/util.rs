//! Error helpers of the ext4 layer.
use vstd::prelude::*;
use crate::errno::{Errno, SysResult};

verus! {

/// Passes `errno` through; `msg` says where it arose.
pub fn debug_errno(msg: &str, errno: Errno) -> (r: Errno)
    ensures
        r == errno,
{
    errno
}

/// An error result carrying `errno`.
pub fn ret_errno<T>(msg: &str, errno: Errno) -> (r: SysResult<T>)
    ensures
        r == Err::<T, Errno>(errno),
{
    Err(debug_errno(msg, errno))
}

/// Passes a mount-time `errno` through; `msg` says where it arose.
pub fn mount_errno(msg: &str, errno: Errno) -> (r: Errno)
    ensures
        r == errno,
{
    errno
}

/// A mount-time error result carrying `errno`.
pub fn mount_ret_errno<T>(msg: &str, errno: Errno) -> (r: SysResult<T>)
    ensures
        r == Err::<T, Errno>(errno),
{
    Err(mount_errno(msg, errno))
}

} // verus!
