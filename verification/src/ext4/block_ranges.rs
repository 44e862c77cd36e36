//! How a read or a write at a byte offset of a file splits over its 4 KiB logical blocks, for
//! a back end that maps each logical block to a physical one and reads or writes whole blocks.
use vstd::prelude::*;

verus! {

/// The block size of the back end.
pub const REF_BLOCK_SIZE: usize = 4096;

/// A piece of a read: `len` bytes at `block_off` of logical block `iblock`, into the buffer
/// at `cursor`.
#[derive(Clone, Copy, Debug, PartialEq, Eq, Structural)]
pub struct BlockCopy {
    pub iblock: usize,
    pub block_off: usize,
    pub len: usize,
    pub cursor: usize,
}

/// How many bytes a read of `len` at `offset` of a file of `file_size` bytes gives.
pub open spec fn ref_read_len(file_size: int, offset: int, len: int) -> int {
    if len == 0 || offset >= file_size { 0 } else if offset + len > file_size { file_size - offset } else { len }
}

/// The pieces `s` read bytes `offset..offset + total` in order, each within one block.
pub open spec fn pieces_cover(s: Seq<BlockCopy>, offset: int, total: int) -> bool {
    &&& forall|k: int| 0 <= k < s.len() ==> {
        &&& 0 < (#[trigger] s[k]).len
        &&& s[k].block_off + s[k].len <= REF_BLOCK_SIZE
        &&& s[k].iblock * REF_BLOCK_SIZE + s[k].block_off == offset + s[k].cursor
    }
    &&& s.len() > 0 ==> s[0].cursor == 0
    &&& forall|k: int| 0 < k < s.len() ==> (#[trigger] s[k]).cursor == s[k - 1].cursor + s[k - 1].len
    &&& s.len() == 0 ==> total == 0
    &&& s.len() > 0 ==> s[s.len() - 1].cursor + s[s.len() - 1].len == total
}

/// The block pieces of a read of `buf_len` bytes at `offset` of a file of `file_size`
/// bytes, and the count read: a partial first block, then whole blocks, the last cut at the
/// end of the file.
pub fn readat_ref(file_size: u64, offset: usize, buf_len: usize) -> (r: (usize, Vec<BlockCopy>))
    requires
        file_size + REF_BLOCK_SIZE <= usize::MAX,
        offset + buf_len <= usize::MAX,
    ensures
        r.0 == ref_read_len(file_size as int, offset as int, buf_len as int),
        pieces_cover(r.1@, offset as int, r.0 as int),
{
    let mut pieces: Vec<BlockCopy> = Vec::new();
    let mut read_buf_len = buf_len;
    if read_buf_len == 0 {
        return (0, pieces);
    }
    let size = file_size as usize;
    if offset >= size {
        return (0, pieces);
    }
    if offset + read_buf_len > size {
        read_buf_len = size - offset;
    }
    let total_blocks = (size + REF_BLOCK_SIZE - 1) / REF_BLOCK_SIZE;
    let iblock_start = offset / REF_BLOCK_SIZE;
    let last = (offset + read_buf_len + REF_BLOCK_SIZE - 1) / REF_BLOCK_SIZE;
    let iblock_last = if last < total_blocks { last } else { total_blocks };
    let unaligned_start_offset = offset % REF_BLOCK_SIZE;
    let mut cursor: usize = 0;
    let mut total_bytes_read: usize = 0;
    let mut iblock = iblock_start;
    proof {
        assert(iblock_start * 4096 + unaligned_start_offset == offset) by (nonlinear_arith)
            requires
                iblock_start == offset / 4096,
                unaligned_start_offset == offset % 4096,
        ;
    }
    if unaligned_start_offset > 0 {
        let adjust = if REF_BLOCK_SIZE - unaligned_start_offset < read_buf_len { REF_BLOCK_SIZE - unaligned_start_offset } else { read_buf_len };
        pieces.push(BlockCopy { iblock, block_off: unaligned_start_offset, len: adjust, cursor });
        cursor += adjust;
        total_bytes_read += adjust;
        iblock += 1;
    }
    proof {
        assert(iblock_last * 4096 >= offset + read_buf_len) by (nonlinear_arith)
            requires
                last == (offset + read_buf_len + 4095) / 4096,
                total_blocks == (size + 4095) / 4096,
                offset + read_buf_len <= size,
                iblock_last == if last < total_blocks { last } else { total_blocks },
        ;
    }
    while total_bytes_read < read_buf_len && iblock < iblock_last
        invariant
            0 < read_buf_len,
            read_buf_len == ref_read_len(file_size as int, offset as int, buf_len as int),
            offset + read_buf_len <= size,
            size == file_size,
            size + REF_BLOCK_SIZE <= usize::MAX,
            cursor == total_bytes_read,
            total_bytes_read <= read_buf_len,
            iblock_last * 4096 >= offset + read_buf_len,
            iblock * 4096 == offset + total_bytes_read || (total_bytes_read == read_buf_len && iblock * 4096 >= offset + total_bytes_read),
            total_bytes_read == 0 ==> pieces@.len() == 0,
            pieces_cover(pieces@, offset as int, total_bytes_read as int),
        decreases read_buf_len - total_bytes_read,
    {
        let read_length = if REF_BLOCK_SIZE < read_buf_len - total_bytes_read { REF_BLOCK_SIZE } else { read_buf_len - total_bytes_read };
        let ghost before = pieces@;
        pieces.push(BlockCopy { iblock, block_off: 0, len: read_length, cursor });
        proof {
            assert(pieces@ == before.push(BlockCopy { iblock, block_off: 0, len: read_length, cursor }));
        }
        cursor += read_length;
        total_bytes_read += read_length;
        iblock += 1;
    }
    proof {
        if total_bytes_read < read_buf_len {
            assert(iblock >= iblock_last);
            assert(false);
        }
    }
    (total_bytes_read, pieces)
}

/// Where a write through the back end stands.
#[derive(Clone, Copy, Debug, PartialEq, Eq, Structural)]
pub enum WritePhase {
    /// Waiting for the physical block of the partial first block.
    MapFirst,
    /// Waiting for the physical block of the next block of a run.
    MapRun,
    /// Writing the run of physical blocks found.
    WriteRun,
    /// A write was handed out; the next step goes on from there.
    Continue,
    /// Done.
    Finished,
}

/// A write of `len` bytes at `offset` of a file of `file_size` bytes, in progress.
#[derive(Clone, Copy, Debug, PartialEq, Eq, Structural)]
pub struct WriteRefState {
    pub len: usize,
    pub offset: usize,
    pub file_size: u64,
    pub iblk: usize,
    pub iblock_last: usize,
    pub ifile_blocks: u64,
    pub written: usize,
    pub run_start: u64,
    pub run_len: usize,
    pub run_done: usize,
    pub phase: WritePhase,
}

/// What a write asks of the back end next.
#[derive(Clone, Copy, Debug, PartialEq, Eq, Structural)]
pub enum WriteRefAction {
    /// Find the physical block of logical block `iblk`, or append one to the file when it
    /// lies past the file's blocks; answer with its number.
    MapBlock { iblk: usize, append: bool },
    /// Write `len` bytes of the buffer from `from` at `block_off` of physical block `pblock`.
    Write { pblock: u64, block_off: usize, from: usize, len: usize },
    /// Done after `written` bytes; set the file's size to `new_size` (and write its inode back)
    /// when there is one.
    Finish { written: usize, new_size: Option<u64> },
}

/// The number of blocks that `n` bytes take.
pub open spec fn blocks_of(n: int) -> int {
    (n + 4095) / 4096
}

/// The size a write of `len` bytes at `offset` leaves a file of `file_size` bytes, if it grows.
pub open spec fn grown_size(file_size: u64, offset: usize, len: usize) -> Option<u64> {
    if offset + len > file_size { Some((offset + len) as u64) } else { None }
}

impl WriteRefState {
    /// The bookkeeping of a write in progress agrees with itself.
    pub open spec fn wf(&self) -> bool {
        &&& self.offset + self.len + REF_BLOCK_SIZE <= usize::MAX
        &&& self.len > 0
        &&& self.iblock_last == blocks_of(self.offset + self.len)
        &&& self.ifile_blocks == blocks_of(self.file_size as int)
        &&& self.written <= self.len
        &&& match self.phase {
            WritePhase::MapFirst => self.written == 0 && self.iblk == self.offset / 4096 && self.offset % 4096 > 0,
            WritePhase::MapRun => {
                &&& self.written < self.len
                &&& self.iblk < self.iblock_last
                &&& self.run_len <= self.iblk
                &&& (self.iblk - self.run_len) * 4096 == self.offset + self.written
                &&& self.run_len == 0 ==> self.run_start == 0
                &&& self.run_start + self.run_len < 0x1_0000_0000_0000
            },
            WritePhase::WriteRun => {
                &&& 0 < self.run_len
                &&& self.run_done < self.run_len
                &&& self.run_len <= self.iblk <= self.iblock_last
                &&& (self.iblk - self.run_len + self.run_done) * 4096 == self.offset + self.written
                &&& self.written < self.len
                &&& self.run_start + self.run_len < 0x1_0000_0000_0000
            },
            WritePhase::Continue => self.written < self.len ==> self.iblk * 4096 == self.offset + self.written,
            WritePhase::Finished => self.written == self.len,
        }
    }
}

/// A block count rounds a byte count up.
proof fn lemma_blocks_of(n: int)
    requires
        n > 0,
    ensures
        (blocks_of(n) - 1) * 4096 < n <= blocks_of(n) * 4096,
{
    assert((blocks_of(n) - 1) * 4096 < n <= blocks_of(n) * 4096) by (nonlinear_arith)
        requires
            n > 0,
            blocks_of(n) == (n + 4095) / 4096,
    ;
}

/// What the write does once a run is written (or before any): map the next block while bytes
/// are left, else finish.
fn next_run(state: &mut WriteRefState) -> (r: WriteRefAction)
    requires
        old(state).wf(),
        old(state).phase == WritePhase::Continue,
    ensures
        final(state).wf(),
        final(state).len == old(state).len,
        final(state).offset == old(state).offset,
        final(state).file_size == old(state).file_size,
        final(state).written == old(state).written,
        final(state).iblk == old(state).iblk,
        old(state).written < old(state).len ==> r == (WriteRefAction::MapBlock { iblk: old(state).iblk,
            append: old(state).iblk >= old(state).ifile_blocks }) && final(state).phase == WritePhase::MapRun,
        old(state).written == old(state).len ==> final(state).phase == WritePhase::Finished && r == (WriteRefAction::Finish {
            written: old(state).written, new_size: grown_size(old(state).file_size, old(state).offset, old(state).len) }),
{
    state.run_start = 0;
    state.run_len = 0;
    state.run_done = 0;
    if state.written < state.len {
        proof {
            lemma_blocks_of(state.offset + state.len);
        }
        state.phase = WritePhase::MapRun;
        WriteRefAction::MapBlock { iblk: state.iblk, append: (state.iblk as u64) >= state.ifile_blocks }
    } else {
        state.phase = WritePhase::Finished;
        let new_size = if (state.offset + state.len) as u64 > state.file_size { Some((state.offset + state.len) as u64) } else { None };
        WriteRefAction::Finish { written: state.written, new_size }
    }
}

/// Hands out the write of the next block of the run.
fn run_write(state: &mut WriteRefState) -> (r: WriteRefAction)
    requires
        old(state).wf(),
        old(state).phase == WritePhase::WriteRun,
    ensures
        final(state).wf(),
        final(state).len == old(state).len,
        final(state).offset == old(state).offset,
        final(state).file_size == old(state).file_size,
        r matches WriteRefAction::Write { pblock, block_off, from, len } && pblock == old(state).run_start + old(state).run_done
            && block_off == 0 && from == old(state).written && len > 0 && len <= REF_BLOCK_SIZE
            && (old(state).offset + from) % 4096 == 0 && final(state).written == old(state).written + len,
{
    let remaining = state.len - state.written;
    let write_size = if REF_BLOCK_SIZE < remaining { REF_BLOCK_SIZE } else { remaining };
    let p = state.run_start + state.run_done as u64;
    let from = state.written;
    proof {
        lemma_blocks_of(state.offset + state.len);
        let b = state.iblk - state.run_len + state.run_done;
        assert((state.offset + from) % 4096 == 0) by (nonlinear_arith)
            requires
                b * 4096 == state.offset + from,
                b >= 0,
        ;
        if state.run_done + 1 < state.run_len {
            assert(b + 1 < state.iblock_last);
            assert((b + 1) * 4096 <= (state.iblock_last - 1) * 4096) by (nonlinear_arith)
                requires
                    b + 1 <= state.iblock_last - 1,
            ;
        }
    }
    state.written = state.written + write_size;
    state.run_done = state.run_done + 1;
    if state.run_done == state.run_len {
        state.phase = WritePhase::Continue;
        proof {
            if state.written < state.len {
                assert(write_size == 4096);
            }
        }
    }
    WriteRefAction::Write { pblock: p, block_off: 0, from, len: write_size }
}

/// Starts a write of `len` bytes at `offset` of a file of `file_size` bytes: an empty write
/// is done at once; else the first block is mapped (a partial first block on its own).
pub fn writeat_ref_start(file_size: u64, offset: usize, len: usize) -> (r: (WriteRefState, WriteRefAction))
    requires
        offset + len + REF_BLOCK_SIZE <= usize::MAX,
        file_size + REF_BLOCK_SIZE <= u64::MAX,
    ensures
        len == 0 ==> r.1 == (WriteRefAction::Finish { written: 0, new_size: None }),
        len > 0 ==> r.0.wf() && r.0.len == len && r.0.offset == offset && r.0.file_size == file_size && r.0.written == 0,
        len > 0 ==> r.1 == (WriteRefAction::MapBlock { iblk: offset / REF_BLOCK_SIZE,
            append: offset / REF_BLOCK_SIZE >= blocks_of(file_size as int) }),
{
    let ifile_blocks = (file_size + REF_BLOCK_SIZE as u64 - 1) / REF_BLOCK_SIZE as u64;
    let iblock_start = offset / REF_BLOCK_SIZE;
    let mut state = WriteRefState {
        len,
        offset,
        file_size,
        iblk: iblock_start,
        iblock_last: 0,
        ifile_blocks,
        written: 0,
        run_start: 0,
        run_len: 0,
        run_done: 0,
        phase: WritePhase::Finished,
    };
    if len == 0 {
        return (state, WriteRefAction::Finish { written: 0, new_size: None });
    }
    state.iblock_last = (offset + len + REF_BLOCK_SIZE - 1) / REF_BLOCK_SIZE;
    if offset % REF_BLOCK_SIZE > 0 {
        state.phase = WritePhase::MapFirst;
        let append = (iblock_start as u64) >= ifile_blocks;
        return (state, WriteRefAction::MapBlock { iblk: iblock_start, append });
    }
    proof {
        assert(iblock_start * 4096 == offset) by (nonlinear_arith)
            requires
                iblock_start == offset / 4096,
                offset % 4096 == 0,
        ;
    }
    state.phase = WritePhase::Continue;
    let action = next_run(&mut state);
    (state, action)
}

/// Takes the next step of a write: `pblock` answers a `MapBlock` (and is `None` otherwise). The
/// partial first block is written where it was mapped; after it, blocks are mapped one by one
/// while their physical numbers follow on, and the run is then written block by block; a
/// block that breaks the run is mapped again for the next run.
pub fn writeat_ref_step(state: &mut WriteRefState, pblock: Option<u64>) -> (r: WriteRefAction)
    requires
        old(state).wf(),
        old(state).phase != WritePhase::Finished,
        old(state).phase == WritePhase::MapFirst || old(state).phase == WritePhase::MapRun
            ==> (pblock matches Some(p) && p + old(state).iblock_last < 0x1_0000_0000_0000),
    ensures
        final(state).wf(),
        final(state).len == old(state).len,
        final(state).offset == old(state).offset,
        final(state).file_size == old(state).file_size,
        r matches WriteRefAction::Write { pblock: p, block_off, from, len } ==> from == old(state).written && len > 0
            && block_off + len <= REF_BLOCK_SIZE && block_off == (old(state).offset + from) % 4096
            && final(state).written == old(state).written + len,
        !(r is Write) ==> final(state).written == old(state).written,
        r matches WriteRefAction::MapBlock { iblk, append } ==> iblk == final(state).iblk && iblk < final(state).iblock_last
            && append == (iblk >= final(state).ifile_blocks),
        r matches WriteRefAction::Finish { written, new_size } ==> written == old(state).len
            && new_size == grown_size(old(state).file_size, old(state).offset, old(state).len),
{
    match state.phase {
        WritePhase::MapFirst => {
            let p = match pblock { Some(p) => p, None => 0 };
            let unaligned = state.offset % REF_BLOCK_SIZE;
            let len = if state.len < REF_BLOCK_SIZE - unaligned { state.len } else { REF_BLOCK_SIZE - unaligned };
            proof {
                assert(state.iblk * 4096 + unaligned == state.offset) by (nonlinear_arith)
                    requires
                        state.iblk == state.offset / 4096,
                        unaligned == state.offset % 4096,
                ;
            }
            state.written = len;
            state.iblk = state.iblk + 1;
            state.phase = WritePhase::Continue;
            WriteRefAction::Write { pblock: p, block_off: unaligned, from: 0, len }
        },
        WritePhase::Continue => {
            next_run(state)
        },
        WritePhase::MapRun => {
            let p = match pblock { Some(p) => p, None => 0 };
            if state.run_start == 0 {
                state.run_start = p;
            }
            if state.run_start + state.run_len as u64 != p {
                state.phase = WritePhase::WriteRun;
                state.run_done = 0;
                return run_write(state);
            }
            state.run_len = state.run_len + 1;
            state.iblk = state.iblk + 1;
            if state.iblk < state.iblock_last {
                WriteRefAction::MapBlock { iblk: state.iblk, append: (state.iblk as u64) >= state.ifile_blocks }
            } else {
                state.phase = WritePhase::WriteRun;
                state.run_done = 0;
                run_write(state)
            }
        },
        WritePhase::WriteRun => {
            run_write(state)
        },
        WritePhase::Finished => {
            WriteRefAction::Finish { written: state.written, new_size: None }
        },
    }
}

} // verus!
