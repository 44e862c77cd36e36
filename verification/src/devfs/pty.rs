//! The state of a pseudo-terminal pair: which ends are open, the master's receive queue,
//! and the decisions of opening, closing, reading, writing, polling and ioctls.
use vstd::prelude::*;
use crate::errno::{Errno, SysResult};
use crate::vfs::{READ_READY, WRITE_READY, ERROR, HANG_UP, has_event};

verus! {

pub const TIOCGPTN: usize = 0x80045430;
pub const TIOCSPTLCK: usize = 0x40045431;
pub const TIOCGPTLCK: usize = 0x80045439;

/// The state of a pseudo-terminal pair.
pub struct PtyInner {
    pub id: usize,
    pub locked: bool,
    pub master_closed: bool,
    pub slave_closed: bool,
    pub master_open_count: usize,
    pub slave_open_count: usize,
    pub cleanup_done: bool,
    /// Bytes waiting for the master to read, oldest first.
    pub master_recv: Vec<u8>,
}

/// What a blocking read decides when it finds nothing to hand out.
#[derive(Clone, Copy, PartialEq, Eq, Structural, Debug)]
pub enum ReadWait {
    /// Give up with this error.
    Fail(Errno),
    /// The slave end is hung up: end of file.
    Eof,
    /// Wait to be woken.
    Sleep,
}

/// A request a pty master understands beyond the terminal ones.
#[derive(Clone, Copy, PartialEq, Eq, Structural, Debug)]
pub enum PtyIoctl {
    GetNumber,
    SetLock,
    GetLock,
}

/// The readiness of the master: writable while both ends are open, readable with queued
/// bytes, hung up once either end closed.
pub open spec fn master_ready_spec(master_closed: bool, slave_closed: bool, recv_nonempty: bool, event: u32) -> Option<u32> {
    let ready = (if has_event(event, WRITE_READY) && !slave_closed && !master_closed { WRITE_READY } else { 0 })
        | (if has_event(event, READ_READY) && recv_nonempty { READ_READY } else { 0 })
        | (if slave_closed || master_closed { HANG_UP } else { 0 });
    if ready == 0 { None } else { Some(ready) }
}

/// The readiness of the slave: writable while the master is open, readable with terminal
/// input, hung up once the master closed.
pub open spec fn slave_ready_spec(master_closed: bool, input_ready: bool, event: u32) -> Option<u32> {
    let ready = (if has_event(event, WRITE_READY) && !master_closed { WRITE_READY } else { 0 })
        | (if has_event(event, READ_READY) && input_ready { READ_READY } else { 0 })
        | (if master_closed { HANG_UP } else { 0 });
    if ready == 0 { None } else { Some(ready) }
}

/// The event a poll waiter interested in `interest` is woken with.
pub open spec fn poll_wake_spec(event: u32, interest: u32) -> u32 {
    (event & interest) | (event & (ERROR | HANG_UP))
}

impl PtyInner {
    /// A new pair: locked, master open, slave not yet opened, nothing queued.
    pub fn new(id: usize) -> (r: Self)
        ensures
            r.id == id,
            r.locked,
            !r.master_closed,
            r.slave_closed,
            r.master_open_count == 0,
            r.slave_open_count == 0,
            !r.cleanup_done,
            r.master_recv@.len() == 0,
    {
        PtyInner {
            id,
            locked: true,
            master_closed: false,
            slave_closed: true,
            master_open_count: 0,
            slave_open_count: 0,
            cleanup_done: false,
            master_recv: Vec::new(),
        }
    }

    /// The slave's name: its number.
    pub fn slave_number(&self) -> (r: usize)
        ensures
            r == self.id,
    {
        self.id
    }

    /// A descriptor of the master is opened.
    pub fn master_open(&mut self)
        requires
            old(self).master_open_count < usize::MAX,
        ensures
            *final(self) == (PtyInner { master_open_count: (old(self).master_open_count + 1) as usize,
                master_closed: false, ..*old(self) }),
    {
        self.master_open_count = self.master_open_count + 1;
        self.master_closed = false;
    }

    /// A descriptor of the master is closed; the last one hangs the master up. Gives whether
    /// the hang-up ran its clean-up (waking both ends and removing the slave's node).
    pub fn master_close(&mut self) -> (r: bool)
        requires
            old(self).master_open_count > 0,
        ensures
            final(self).master_open_count == old(self).master_open_count - 1,
            old(self).master_open_count == 1 && !old(self).cleanup_done ==> r && final(self).master_closed
                && final(self).locked && final(self).cleanup_done,
            !(old(self).master_open_count == 1 && !old(self).cleanup_done) ==> !r
                && *final(self) == (PtyInner { master_open_count: (old(self).master_open_count - 1) as usize, ..*old(self) }),
            final(self).slave_closed == old(self).slave_closed,
            final(self).id == old(self).id,
            final(self).master_recv@ == old(self).master_recv@,
    {
        let previous = self.master_open_count;
        self.master_open_count = previous - 1;
        if previous == 1 {
            return self.hangup_master();
        }
        false
    }

    /// A descriptor of the slave is opened: `EIO` while the pair is locked or the master is closed.
    pub fn slave_open(&mut self) -> (r: SysResult<()>)
        requires
            old(self).slave_open_count < usize::MAX,
        ensures
            old(self).locked || old(self).master_closed ==> r == Err::<(), Errno>(Errno::EIO) && *final(self) == *old(self),
            !(old(self).locked || old(self).master_closed) ==> r is Ok && *final(self) == (PtyInner {
                slave_open_count: (old(self).slave_open_count + 1) as usize, slave_closed: false, ..*old(self) }),
    {
        if self.locked || self.master_closed {
            return Err(Errno::EIO);
        }
        self.slave_open_count = self.slave_open_count + 1;
        self.slave_closed = false;
        Ok(())
    }

    /// A descriptor of the slave is closed; the last one closes the slave end. Gives the event
    /// the master's waiters are woken with, if any.
    pub fn slave_close(&mut self) -> (r: Option<u32>)
        requires
            old(self).slave_open_count > 0,
        ensures
            old(self).slave_open_count == 1 ==> r == Some(HANG_UP) && *final(self) == (PtyInner {
                slave_open_count: 0, slave_closed: true, ..*old(self) }),
            old(self).slave_open_count != 1 ==> r is None && *final(self) == (PtyInner {
                slave_open_count: (old(self).slave_open_count - 1) as usize, ..*old(self) }),
    {
        let previous = self.slave_open_count;
        self.slave_open_count = previous - 1;
        if previous == 1 {
            self.slave_closed = true;
            return Some(HANG_UP);
        }
        None
    }

    /// Hangs the master up once: closes and locks the master end. Gives whether this call did
    /// it (and so must wake both ends with `HANG_UP` and remove the slave's node).
    pub fn hangup_master(&mut self) -> (r: bool)
        ensures
            r == !old(self).cleanup_done,
            old(self).cleanup_done ==> *final(self) == *old(self),
            !old(self).cleanup_done ==> *final(self) == (PtyInner { cleanup_done: true, master_closed: true, locked: true, ..*old(self) }),
    {
        if self.cleanup_done {
            return false;
        }
        self.cleanup_done = true;
        self.master_closed = true;
        self.locked = true;
        true
    }

    /// Locks or unlocks the pair.
    pub fn set_locked(&mut self, locked: bool)
        ensures
            *final(self) == (PtyInner { locked, ..*old(self) }),
    {
        self.locked = locked;
    }

    /// Whether the pair is locked.
    pub fn is_locked(&self) -> (r: bool)
        ensures
            r == self.locked,
    {
        self.locked
    }

    /// Whether the master may write: `EIO` once either end is closed.
    pub fn write_master_check(&self) -> (r: SysResult<()>)
        ensures
            r == (if self.master_closed || self.slave_closed { Err::<(), Errno>(Errno::EIO) } else { Ok::<(), Errno>(()) }),
    {
        if self.master_closed || self.slave_closed {
            return Err(Errno::EIO);
        }
        Ok(())
    }

    /// Whether the slave may write: `EIO` once the master is closed.
    pub fn write_slave_check(&self) -> (r: SysResult<()>)
        ensures
            r == (if self.master_closed { Err::<(), Errno>(Errno::EIO) } else { Ok::<(), Errno>(()) }),
    {
        if self.master_closed {
            return Err(Errno::EIO);
        }
        Ok(())
    }

    /// Queues a byte for the master to read.
    pub fn push_master(&mut self, c: u8)
        ensures
            final(self).master_recv@ == old(self).master_recv@.push(c),
            *final(self) == (PtyInner { master_recv: final(self).master_recv, ..*old(self) }),
    {
        self.master_recv.push(c);
    }

    /// Whether bytes wait for the master.
    pub fn master_has_input(&self) -> (r: bool)
        ensures
            r == (self.master_recv@.len() > 0),
    {
        self.master_recv.len() > 0
    }

    /// Hands out up to `max` queued bytes, oldest first.
    pub fn drain_master(&mut self, max: usize) -> (r: Vec<u8>)
        ensures
            ({
                let n = if max < old(self).master_recv@.len() { max as int } else { old(self).master_recv@.len() as int };
                &&& r@ == old(self).master_recv@.subrange(0, n)
                &&& final(self).master_recv@ == old(self).master_recv@.subrange(n, old(self).master_recv@.len() as int)
                &&& *final(self) == (PtyInner { master_recv: final(self).master_recv, ..*old(self) })
            }),
    {
        let total = self.master_recv.len();
        let n = if max < total { max } else { total };
        let out = crate::bytes::copy_range(self.master_recv.as_slice(), 0, n);
        let rest = crate::bytes::copy_range(self.master_recv.as_slice(), n, total);
        self.master_recv = rest;
        out
    }

    /// What a master read finding nothing queued does: `EIO` once either end is closed,
    /// `EAGAIN` when not blocking, else wait.
    pub fn master_read_empty(&self, blocked: bool) -> (r: ReadWait)
        ensures
            r == (if self.slave_closed || self.master_closed { ReadWait::Fail(Errno::EIO) }
                else if !blocked { ReadWait::Fail(Errno::EAGAIN) } else { ReadWait::Sleep }),
    {
        if self.slave_closed || self.master_closed {
            return ReadWait::Fail(Errno::EIO);
        }
        if !blocked {
            return ReadWait::Fail(Errno::EAGAIN);
        }
        ReadWait::Sleep
    }

    /// What a slave read finding no terminal input does: end of file once the master is
    /// closed, `EAGAIN` when not blocking, else wait.
    pub fn slave_read_empty(&self, blocked: bool) -> (r: ReadWait)
        ensures
            r == (if self.master_closed { ReadWait::Eof }
                else if !blocked { ReadWait::Fail(Errno::EAGAIN) } else { ReadWait::Sleep }),
    {
        if self.master_closed {
            return ReadWait::Eof;
        }
        if !blocked {
            return ReadWait::Fail(Errno::EAGAIN);
        }
        ReadWait::Sleep
    }

    /// The master's readiness for the events asked.
    pub fn master_ready(&self, event: u32) -> (r: Option<u32>)
        ensures
            r == master_ready_spec(self.master_closed, self.slave_closed, self.master_recv@.len() > 0, event),
    {
        let mut ready: u32 = 0;
        if event & WRITE_READY != 0 && !self.slave_closed && !self.master_closed {
            ready = ready | WRITE_READY;
        }
        if event & READ_READY != 0 && self.master_recv.len() > 0 {
            ready = ready | READ_READY;
        }
        if self.slave_closed || self.master_closed {
            ready = ready | HANG_UP;
        }
        proof { lemma_or_zero(); }
        if ready == 0 { None } else { Some(ready) }
    }

    /// The slave's readiness for the events asked, given whether terminal input is ready.
    pub fn slave_ready(&self, event: u32, input_ready: bool) -> (r: Option<u32>)
        ensures
            r == slave_ready_spec(self.master_closed, input_ready, event),
    {
        let mut ready: u32 = 0;
        if event & WRITE_READY != 0 && !self.master_closed {
            ready = ready | WRITE_READY;
        }
        if event & READ_READY != 0 && input_ready {
            ready = ready | READ_READY;
        }
        if self.master_closed {
            ready = ready | HANG_UP;
        }
        proof { lemma_or_zero(); }
        if ready == 0 { None } else { Some(ready) }
    }
}

impl PtyInner {
    /// Master write: `EIO` once either end is closed; else the bytes that the terminal's line
    /// discipline echoed back while taking the `written` input bytes are queued for the
    /// master, and the wake-ups (slave, master) that follow are given with the count written.
    pub fn write_master(&mut self, written: usize, echoed: &[u8], slave_input_ready: bool)
        -> (r: SysResult<(usize, Option<u32>, Option<u32>)>)
        ensures
            old(self).master_closed || old(self).slave_closed ==> r == Err::<(usize, Option<u32>, Option<u32>), Errno>(Errno::EIO)
                && *final(self) == *old(self),
            !(old(self).master_closed || old(self).slave_closed) ==> {
                &&& final(self).master_recv@ == old(self).master_recv@ + echoed@
                &&& *final(self) == (PtyInner { master_recv: final(self).master_recv, ..*old(self) })
                &&& r == Ok::<(usize, Option<u32>, Option<u32>), Errno>((written,
                    if slave_input_ready { Some(READ_READY) } else { None },
                    if final(self).master_recv@.len() > 0 { Some(READ_READY) } else { None }))
            },
    {
        self.write_master_check()?;
        let mut i: usize = 0;
        while i < echoed.len()
            invariant
                i <= echoed@.len(),
                self.master_recv@ == old(self).master_recv@ + echoed@.subrange(0, i as int),
                *self == (PtyInner { master_recv: self.master_recv, ..*old(self) }),
            decreases echoed@.len() - i,
        {
            self.push_master(echoed[i]);
            i += 1;
            proof {
                assert(self.master_recv@ =~= old(self).master_recv@ + echoed@.subrange(0, i as int));
            }
        }
        proof {
            assert(echoed@.subrange(0, i as int) =~= echoed@);
        }
        let (slave_wake, master_wake) = write_master_wakeups(slave_input_ready, self.master_has_input());
        Ok((written, slave_wake, master_wake))
    }

    /// Master read: up to `max` queued bytes, oldest first; with none handed out, what the
    /// read does instead (`EIO` once an end is closed, `EAGAIN` when not blocking, else wait).
    pub fn read_master(&mut self, max: usize, blocked: bool) -> (r: Result<Vec<u8>, ReadWait>)
        ensures
            ({
                let n = if max < old(self).master_recv@.len() { max as int } else { old(self).master_recv@.len() as int };
                if n > 0 {
                    &&& r matches Ok(v) && v@ == old(self).master_recv@.subrange(0, n)
                    &&& final(self).master_recv@ == old(self).master_recv@.subrange(n, old(self).master_recv@.len() as int)
                    &&& *final(self) == (PtyInner { master_recv: final(self).master_recv, ..*old(self) })
                } else {
                    &&& *final(self) == *old(self)
                    &&& r == Err::<Vec<u8>, ReadWait>(if old(self).slave_closed || old(self).master_closed { ReadWait::Fail(Errno::EIO) }
                        else if !blocked { ReadWait::Fail(Errno::EAGAIN) } else { ReadWait::Sleep })
                }
            }),
    {
        if max > 0 && self.master_recv.len() > 0 {
            return Ok(self.drain_master(max));
        }
        Err(self.master_read_empty(blocked))
    }

    /// Slave read: the count the terminal handed out, if it had input; else end of file once
    /// the master is closed, `EAGAIN` when not blocking, or wait.
    pub fn read_slave(&self, input: Option<usize>, blocked: bool) -> (r: Result<usize, ReadWait>)
        ensures
            r == (match input {
                Some(n) => Ok::<usize, ReadWait>(n),
                None => Err(if self.master_closed { ReadWait::Eof } else if !blocked { ReadWait::Fail(Errno::EAGAIN) }
                    else { ReadWait::Sleep }),
            }),
    {
        match input {
            Some(n) => Ok(n),
            None => Err(self.slave_read_empty(blocked)),
        }
    }

    /// Drops the terminal's pending input (`tty_input`) under the pair's lock; the pair
    /// itself is left as it was.
    pub fn flush_input(&self, tty_input: &mut Vec<u8>)
        ensures
            final(tty_input)@.len() == 0,
    {
        tty_input.clear();
    }

    /// The master's readiness for a poll of `event`.
    pub fn master_poll_event(&self, event: u32) -> (r: Option<u32>)
        ensures
            r == master_ready_spec(self.master_closed, self.slave_closed, self.master_recv@.len() > 0, event),
    {
        self.master_ready(event)
    }

    /// The slave's readiness for a poll of `event`, given whether terminal input is ready.
    pub fn slave_poll_event(&self, event: u32, input_ready: bool) -> (r: Option<u32>)
        ensures
            r == slave_ready_spec(self.master_closed, input_ready, event),
    {
        self.slave_ready(event, input_ready)
    }
}

proof fn lemma_or_zero()
    ensures
        forall|x: u32| #[trigger] (0u32 | x) == x,
        forall|x: u32| #[trigger] (x | 0u32) == x,
{
    assert(forall|x: u32| #[trigger] (0u32 | x) == x) by (bit_vector);
    assert(forall|x: u32| #[trigger] (x | 0u32) == x) by (bit_vector);
}

/// The event a poll waiter interested in `interest` is woken with: what it asked for, plus
/// errors and hang-ups always.
pub fn poll_wake_event(event: u32, interest: u32) -> (r: u32)
    ensures
        r == poll_wake_spec(event, interest),
{
    (event & interest) | (event & (ERROR | HANG_UP))
}

/// What a blocked read does when woken: retry on readiness, `EINTR` on a signal.
pub fn wake_outcome(signalled: bool) -> (r: Option<Errno>)
    ensures
        r == (if signalled { Some(Errno::EINTR) } else { None }),
{
    if signalled { Some(Errno::EINTR) } else { None }
}

/// Whether a poll that found nothing ready registers a waiter: only for read interest.
pub fn registers_poll_waiter(ready: Option<u32>, event: u32) -> (r: bool)
    ensures
        r == (ready is None && has_event(event, READ_READY)),
{
    ready.is_none() && event & READ_READY != 0
}

/// Which ends to wake after the master wrote: the slave when it has input, the master when
/// echoes were queued.
pub fn write_master_wakeups(slave_input_ready: bool, master_has_input: bool) -> (r: (Option<u32>, Option<u32>))
    ensures
        r == (if slave_input_ready { Some(READ_READY) } else { None }, if master_has_input { Some(READ_READY) } else { None }),
{
    (if slave_input_ready { Some(READ_READY) } else { None }, if master_has_input { Some(READ_READY) } else { None })
}

/// The pty request an ioctl number names, or `ENOTTY`.
pub fn pty_ioctl_request(request: usize) -> (r: SysResult<PtyIoctl>)
    ensures
        r == (if request == TIOCGPTN { Ok::<PtyIoctl, Errno>(PtyIoctl::GetNumber) }
            else if request == TIOCSPTLCK { Ok::<PtyIoctl, Errno>(PtyIoctl::SetLock) }
            else if request == TIOCGPTLCK { Ok::<PtyIoctl, Errno>(PtyIoctl::GetLock) }
            else { Err::<PtyIoctl, Errno>(Errno::ENOTTY) }),
{
    if request == TIOCGPTN {
        Ok(PtyIoctl::GetNumber)
    } else if request == TIOCSPTLCK {
        Ok(PtyIoctl::SetLock)
    } else if request == TIOCGPTLCK {
        Ok(PtyIoctl::GetLock)
    } else {
        Err(Errno::ENOTTY)
    }
}

/// The lock value `TIOCGPTLCK` reports.
pub fn lock_value(locked: bool) -> (r: i32)
    ensures
        r == (if locked { 1i32 } else { 0i32 }),
{
    if locked { 1 } else { 0 }
}

/// The lock state `TIOCSPTLCK` sets from the user's value.
pub fn lock_from_value(v: i32) -> (r: bool)
    ensures
        r == (v != 0),
{
    v != 0
}

/// The `/dev/ptmx` node: opening it creates a new pair with the next number.
pub struct PtmxInode {
    pub ino: u32,
    pub next_id: usize,
}

impl PtmxInode {
    /// The ptmx node with inode number `ino`; pairs are numbered from 0.
    pub fn new(ino: u32) -> (r: Self)
        ensures
            r.ino == ino,
            r.next_id == 0,
    {
        PtmxInode { ino, next_id: 0 }
    }

    /// Takes the number of the next pair.
    pub fn take_id(&mut self) -> (r: usize)
        requires
            old(self).next_id < usize::MAX,
        ensures
            r == old(self).next_id,
            final(self).next_id == old(self).next_id + 1,
            final(self).ino == old(self).ino,
    {
        let id = self.next_id;
        self.next_id = id + 1;
        id
    }

    /// Its mode: a character device anyone may read and write.
    pub fn mode(&self) -> (r: u32)
        ensures
            r == crate::vfs::S_IFCHR | 0o666,
    {
        crate::vfs::S_IFCHR | 0o666
    }

    /// Its `stat` record.
    pub fn fstat(&self) -> (r: crate::uapi::FileStat)
        ensures
            r == super::nodes::char_stat(self.ino, crate::vfs::S_IFCHR | 0o666),
    {
        super::nodes::char_fstat(self.ino, self.mode())
    }

    /// The node itself cannot be read or written.
    pub fn readat(&self) -> (r: SysResult<usize>)
        ensures
            r == Err::<usize, Errno>(Errno::EINVAL),
    {
        Err(Errno::EINVAL)
    }
}

/// A `/dev/pts/N` node, the slave end of pair `id`.
pub struct PtsInode {
    pub ino: u32,
    pub id: usize,
}

impl PtsInode {
    /// The slave node of pair `id` with inode number `ino`.
    pub fn new(ino: u32, id: usize) -> (r: Self)
        ensures
            r.ino == ino,
            r.id == id,
    {
        PtsInode { ino, id }
    }

    /// Its mode: a character device anyone may read and write.
    pub fn mode(&self) -> (r: u32)
        ensures
            r == crate::vfs::S_IFCHR | 0o666,
    {
        crate::vfs::S_IFCHR | 0o666
    }

    /// Its `stat` record.
    pub fn fstat(&self) -> (r: crate::uapi::FileStat)
        ensures
            r == super::nodes::char_stat(self.ino, crate::vfs::S_IFCHR | 0o666),
    {
        super::nodes::char_fstat(self.ino, self.mode())
    }

    /// The node itself cannot be written.
    pub fn writeat(&self) -> (r: SysResult<usize>)
        ensures
            r == Err::<usize, Errno>(Errno::EINVAL),
    {
        Err(Errno::EINVAL)
    }
}

/// What installing a slave descriptor does after the pair accepted the open: when the file
/// is writable and write-opening the inode failed, the open is undone with that error.
pub fn pts_install_outcome(writable: bool, begin_write: SysResult<()>) -> (r: (SysResult<()>, bool))
    ensures
        r == (if writable && begin_write is Err { (begin_write, true) } else { (Ok::<(), Errno>(()), false) }),
{
    if writable {
        if let Err(e) = begin_write {
            return (Err(e), true);
        }
    }
    (Ok(()), false)
}

impl PtyInner {
    /// Slave write: `EIO` once the master is closed; else the bytes that the terminal made of
    /// the `written` output bytes are queued for the master, which is woken when it has input;
    /// the count written is given with that wake-up.
    pub fn write_slave(&mut self, written: usize, output: &[u8]) -> (r: SysResult<(usize, Option<u32>)>)
        ensures
            old(self).master_closed ==> r == Err::<(usize, Option<u32>), Errno>(Errno::EIO) && *final(self) == *old(self),
            !old(self).master_closed ==> {
                &&& final(self).master_recv@ == old(self).master_recv@ + output@
                &&& *final(self) == (PtyInner { master_recv: final(self).master_recv, ..*old(self) })
                &&& r == Ok::<(usize, Option<u32>), Errno>((written,
                    if final(self).master_recv@.len() > 0 { Some(READ_READY) } else { None }))
            },
    {
        self.write_slave_check()?;
        let mut i: usize = 0;
        while i < output.len()
            invariant
                i <= output@.len(),
                self.master_recv@ == old(self).master_recv@ + output@.subrange(0, i as int),
                *self == (PtyInner { master_recv: self.master_recv, ..*old(self) }),
            decreases output@.len() - i,
        {
            self.push_master(output[i]);
            i += 1;
            proof {
                assert(self.master_recv@ =~= old(self).master_recv@ + output@.subrange(0, i as int));
            }
        }
        proof {
            assert(output@.subrange(0, i as int) =~= output@);
        }
        let wake = if self.master_has_input() { Some(READ_READY) } else { None };
        Ok((written, wake))
    }

    /// A poll of the master that found nothing: its readiness now, else whether to wait
    /// (for read interest only).
    pub fn master_wait_event(&self, event: u32) -> (r: (Option<u32>, bool))
        ensures
            r.0 == master_ready_spec(self.master_closed, self.slave_closed, self.master_recv@.len() > 0, event),
            r.1 == (r.0 is None && has_event(event, READ_READY)),
    {
        let ready = self.master_ready(event);
        let wait = registers_poll_waiter(ready, event);
        (ready, wait)
    }

    /// A poll of the slave that found nothing: its readiness now, else whether to wait (for
    /// read interest only).
    pub fn slave_wait_event(&self, event: u32, input_ready: bool) -> (r: (Option<u32>, bool))
        ensures
            r.0 == slave_ready_spec(self.master_closed, input_ready, event),
            r.1 == (r.0 is None && has_event(event, READ_READY)),
    {
        let ready = self.slave_ready(event, input_ready);
        let wait = registers_poll_waiter(ready, event);
        (ready, wait)
    }
}

} // verus!
