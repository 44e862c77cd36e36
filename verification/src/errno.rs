//! Error numbers used by the file-system layer.
use vstd::prelude::*;

verus! {

/// POSIX error numbers returned by the file-system layer.
#[derive(Debug, Clone, Copy, PartialEq, Eq, Structural)]
pub enum Errno {
    EPERM,
    ENOENT,
    EIO,
    ENXIO,
    EAGAIN,
    EACCES,
    EBUSY,
    EEXIST,
    ENOTDIR,
    EISDIR,
    EINVAL,
    EFBIG,
    ENOSPC,
    ESPIPE,
    EROFS,
    ENOTTY,
    ENOSYS,
    ENOTEMPTY,
    EOPNOTSUPP,
    ENODEV,
    EINTR,
    EXDEV,
}

/// Result type of the file-system layer.
pub type SysResult<T> = Result<T, Errno>;

/// The Linux numeric value of an error number.
pub fn errno_value(e: Errno) -> (r: i32)
    ensures
        r == errno_spec_value(e),
{
    match e {
        Errno::EPERM => 1,
        Errno::ENOENT => 2,
        Errno::EIO => 5,
        Errno::ENXIO => 6,
        Errno::EAGAIN => 11,
        Errno::EACCES => 13,
        Errno::EBUSY => 16,
        Errno::EEXIST => 17,
        Errno::ENOTDIR => 20,
        Errno::EISDIR => 21,
        Errno::EINVAL => 22,
        Errno::EFBIG => 27,
        Errno::ENOSPC => 28,
        Errno::ESPIPE => 29,
        Errno::EROFS => 30,
        Errno::ENOTTY => 25,
        Errno::ENOSYS => 38,
        Errno::ENOTEMPTY => 39,
        Errno::EOPNOTSUPP => 95,
        Errno::ENODEV => 19,
        Errno::EINTR => 4,
        Errno::EXDEV => 18,
    }
}

/// Linux numbering of the error numbers.
pub open spec fn errno_spec_value(e: Errno) -> i32 {
    match e {
        Errno::EPERM => 1,
        Errno::ENOENT => 2,
        Errno::EIO => 5,
        Errno::ENXIO => 6,
        Errno::EAGAIN => 11,
        Errno::EACCES => 13,
        Errno::EBUSY => 16,
        Errno::EEXIST => 17,
        Errno::ENOTDIR => 20,
        Errno::EISDIR => 21,
        Errno::EINVAL => 22,
        Errno::EFBIG => 27,
        Errno::ENOSPC => 28,
        Errno::ESPIPE => 29,
        Errno::EROFS => 30,
        Errno::ENOTTY => 25,
        Errno::ENOSYS => 38,
        Errno::ENOTEMPTY => 39,
        Errno::EOPNOTSUPP => 95,
        Errno::ENODEV => 19,
        Errno::EINTR => 4,
        Errno::EXDEV => 18,
    }
}

} // verus!
