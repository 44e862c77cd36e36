//! Decisions of open files: seeking, the file-size limit on writes, readiness, mapping
//! permissions, and the chunk-by-chunk transfer loops.
use vstd::prelude::*;
use crate::errno::{Errno, SysResult};
use crate::vfs::{SeekWhence, READ_READY, WRITE_READY, has_event};

verus! {

/// Where a seek leads: the new position, or `EINVAL` for a negative one.
pub open spec fn seek_spec(pos: usize, offset: isize, whence: SeekWhence, size: u64) -> Result<usize, Errno> {
    match whence {
        SeekWhence::BEG => if offset < 0 { Err(Errno::EINVAL) } else { Ok(offset as usize) },
        SeekWhence::CUR => {
            let n = (pos as isize) + offset;
            if n < 0 { Err(Errno::EINVAL) } else { Ok(n as usize) }
        },
        SeekWhence::END => {
            let n = (size as isize) + offset;
            if n < 0 { Err(Errno::EINVAL) } else { Ok(n as usize) }
        },
    }
}

/// The new position of a seek by `offset` from the start, the current position `pos`, or the
/// end of a file of `size` bytes; `EINVAL` when it would be negative.
pub fn seek_position(pos: usize, offset: isize, whence: SeekWhence, size: u64) -> (r: SysResult<usize>)
    requires
        whence == SeekWhence::CUR ==> isize::MIN <= (pos as isize) + offset <= isize::MAX,
        whence == SeekWhence::END ==> isize::MIN <= (size as isize) + offset <= isize::MAX,
    ensures
        r == seek_spec(pos, offset, whence, size),
{
    let new_pos: isize = match whence {
        SeekWhence::BEG => {
            if offset < 0 {
                return Err(Errno::EINVAL);
            }
            offset
        },
        SeekWhence::CUR => {
            if offset < 0 && (pos as isize) + offset < 0 {
                return Err(Errno::EINVAL);
            }
            (pos as isize) + offset
        },
        SeekWhence::END => {
            if offset > 0 && (size as isize) + offset < 0 {
                return Err(Errno::EINVAL);
            }
            (size as isize) + offset
        },
    };
    if new_pos < 0 {
        return Err(Errno::EINVAL);
    }
    Ok(new_pos as usize)
}

/// The flags of a file handle that keeps only whether it may be written and whether it
/// closes on exec.
#[derive(Clone, Copy, PartialEq, Eq, Structural, Debug)]
pub struct FileFlags {
    pub writable: bool,
    pub cloexec: bool,
}

impl FileFlags {
    /// Flags for a handle whose flags do not matter: neither writable nor closed on exec.
    pub fn dontcare() -> (r: Self)
        ensures
            r == (FileFlags { writable: false, cloexec: false }),
    {
        FileFlags { writable: false, cloexec: false }
    }
}

/// Where a seek on a plain file handle leads: from the start a negative offset is `EINVAL`;
/// from the current position a negative offset that gives a negative target is `EINVAL`;
/// from the end a positive offset that gives a negative target is `EINVAL`. Any other target
/// is taken as an unsigned position (a negative one wraps).
pub open spec fn handle_seek_spec(pos: usize, offset: isize, whence: SeekWhence, size: u64) -> Result<usize, Errno> {
    match whence {
        SeekWhence::BEG => if offset < 0 { Err(Errno::EINVAL) } else { Ok(offset as usize) },
        SeekWhence::CUR => {
            let n = (pos as isize) + offset;
            if offset < 0 && n < 0 { Err(Errno::EINVAL) } else { Ok(n as usize) }
        },
        SeekWhence::END => {
            let n = (size as isize) + offset;
            if offset > 0 && n < 0 { Err(Errno::EINVAL) } else { Ok(n as usize) }
        },
    }
}

/// The new position of a seek on a plain file handle (see `handle_seek_spec`).
pub fn handle_seek_position(pos: usize, offset: isize, whence: SeekWhence, size: u64) -> (r: SysResult<usize>)
    requires
        whence == SeekWhence::CUR ==> isize::MIN <= (pos as isize) + offset <= isize::MAX,
        whence == SeekWhence::END ==> isize::MIN <= (size as isize) + offset <= isize::MAX,
    ensures
        r == handle_seek_spec(pos, offset, whence, size),
{
    match whence {
        SeekWhence::BEG => {
            if offset < 0 {
                return Err(Errno::EINVAL);
            }
            Ok(offset as usize)
        },
        SeekWhence::CUR => {
            let n: isize = (pos as isize) + offset;
            if offset < 0 && n < 0 {
                return Err(Errno::EINVAL);
            }
            Ok(n as usize)
        },
        SeekWhence::END => {
            let n: isize = (size as isize) + offset;
            if offset > 0 && n < 0 {
                return Err(Errno::EINVAL);
            }
            Ok(n as usize)
        },
    }
}

/// How much of a write of `len` bytes at `offset` the file-size limit `rlim_cur` lets
/// through: all of it for an empty write, no limit, or a non-regular file; `EFBIG` at or past
/// the limit; else up to the limit.
pub fn limit_write_len(offset: usize, len: usize, rlim_cur: usize, is_regular: bool) -> (r: SysResult<usize>)
    ensures
        r == (if len == 0 || rlim_cur == usize::MAX || !is_regular {
            Ok::<usize, Errno>(len)
        } else if offset >= rlim_cur {
            Err::<usize, Errno>(Errno::EFBIG)
        } else {
            Ok::<usize, Errno>(if len < rlim_cur - offset { len } else { (rlim_cur - offset) as usize })
        }),
{
    if len == 0 || rlim_cur == usize::MAX {
        return Ok(len);
    }
    if !is_regular {
        return Ok(len);
    }
    if offset >= rlim_cur {
        return Err(Errno::EFBIG);
    }
    let room = rlim_cur - offset;
    Ok(if len < room { len } else { room })
}

/// The readiness a random-access file reports for the events asked: readable when asked and
/// open for reading, writable likewise; none when neither.
pub fn poll_event(flags: crate::vfs::FileFlags, event: u32) -> (r: Option<u32>)
    ensures
        ({
            let ready = (if has_event(event, READ_READY) && flags.readable { READ_READY } else { 0 })
                | (if has_event(event, WRITE_READY) && flags.writable { WRITE_READY } else { 0 });
            r == (if ready == 0 { None } else { Some(ready) })
        }),
{
    let mut ready: u32 = 0;
    if event & READ_READY != 0 && flags.readable {
        ready = ready | READ_READY;
    }
    if event & WRITE_READY != 0 && flags.writable {
        ready = ready | WRITE_READY;
    }
    proof {
        assert((0u32 | READ_READY) == READ_READY) by (bit_vector);
        assert((0u32 | WRITE_READY) == WRITE_READY) by (bit_vector);
        assert((0u32 | 0u32) == 0u32) by (bit_vector);
        assert((READ_READY | 0u32) == READ_READY) by (bit_vector);
        assert((READ_READY | WRITE_READY) != 0u32) by (bit_vector);
    }
    if ready == 0 { None } else { Some(ready) }
}

/// Whether a file may be mapped: it must be readable; a shared writable mapping needs a
/// writable file that no write seal forbids.
pub fn mmap_permission(flags: crate::vfs::FileFlags, shared: bool, want_write: bool, write_sealed: bool) -> (r: SysResult<()>)
    ensures
        r == (if !flags.readable {
            Err::<(), Errno>(Errno::EACCES)
        } else if shared && want_write && !flags.writable {
            Err::<(), Errno>(Errno::EACCES)
        } else if shared && want_write && write_sealed {
            Err::<(), Errno>(Errno::EPERM)
        } else {
            Ok::<(), Errno>(())
        }),
{
    if !flags.readable {
        return Err(Errno::EACCES);
    }
    if shared && want_write {
        if !flags.writable {
            return Err(Errno::EACCES);
        }
        if write_sealed {
            return Err(Errno::EPERM);
        }
    }
    Ok(())
}

/// What a chunked transfer does after one chunk.
#[derive(Clone, Copy, Debug)]
pub enum TransferStep {
    /// Go on with the next chunk, having moved this many bytes so far.
    Continue(usize),
    /// Stop with this result.
    Done(SysResult<usize>),
}

/// One step of a chunked transfer that keeps partial progress: an error ends it with the bytes
/// moved so far, or with the error when none were; a short chunk ends it; else it goes on.
pub fn transfer_step(total: usize, result: SysResult<usize>, chunk_len: usize) -> (r: TransferStep)
    requires
        result matches Ok(n) ==> total + n <= usize::MAX,
    ensures
        r == match result {
            Err(e) => if total > 0 { TransferStep::Done(Ok(total)) } else { TransferStep::Done(Err(e)) },
            Ok(n) => if n < chunk_len { TransferStep::Done(Ok((total + n) as usize)) } else { TransferStep::Continue((total + n) as usize) },
        },
{
    match result {
        Err(e) => if total > 0 { TransferStep::Done(Ok(total)) } else { TransferStep::Done(Err(e)) },
        Ok(n) => {
            let t = total + n;
            if n < chunk_len { TransferStep::Done(Ok(t)) } else { TransferStep::Continue(t) }
        },
    }
}

/// One step of a chunked transfer that gives up at the first error.
pub fn strict_transfer_step(total: usize, result: SysResult<usize>, chunk_len: usize) -> (r: TransferStep)
    requires
        result matches Ok(n) ==> total + n <= usize::MAX,
    ensures
        r == match result {
            Err(e) => TransferStep::Done(Err(e)),
            Ok(n) => if n < chunk_len { TransferStep::Done(Ok((total + n) as usize)) } else { TransferStep::Continue((total + n) as usize) },
        },
{
    match result {
        Err(e) => TransferStep::Done(Err(e)),
        Ok(n) => {
            let t = total + n;
            if n < chunk_len { TransferStep::Done(Ok(t)) } else { TransferStep::Continue(t) }
        },
    }
}

/// The inode number a directory listing shows for an entry: the parent's for `..` when the
/// parent is known, else the entry's own.
pub fn listed_ino(name: &[u8], ino: u32, parent_ino: Option<u32>) -> (r: u32)
    ensures
        r == (if name@ == seq![46u8, 46u8] && parent_ino is Some { parent_ino->0 } else { ino }),
{
    let dotdot: Vec<u8> = vec![46u8, 46u8];
    assert(dotdot@ =~= seq![46u8, 46u8]);
    if crate::bytes::bytes_eq(name, dotdot.as_slice()) {
        match parent_ino {
            Some(p) => p,
            None => ino,
        }
    } else {
        ino
    }
}

/// The count of descriptors sharing an open file, and whether dropping one leaves none.
pub fn drop_fd_ref(previous: usize) -> (r: (usize, bool))
    requires
        previous > 0,
    ensures
        r == ((previous - 1) as usize, previous == 1),
{
    (previous - 1, previous == 1)
}

/// Position after moving `len` bytes from `pos`.
pub fn advance_pos(pos: usize, len: usize) -> (r: usize)
    requires
        pos + len <= usize::MAX,
    ensures
        r == pos + len,
{
    pos + len
}

/// The position a write starts at: the end of the file when appending, else `pos`.
pub fn write_start(pos: usize, append: bool, size: u64) -> (r: usize)
    ensures
        r == (if append { size as usize } else { pos }),
{
    if append { size as usize } else { pos }
}

} // verus!
