//! Directory blocks: linear entries, hashed-index (dx) root and node blocks, the checksum tail.
use vstd::prelude::*;
use crate::bytes::{le16, le32, put16, put32, le_bytes32, get_u8, get_u16_le, get_u32_le, read_u16, read_u32,
    write_u16, write_u32, copy_range, copy_into, bytes_equal_at, u32_to_le_bytes};
use crate::crc::{crc32c, crc32c_update};
use crate::errno::{Errno, SysResult};
use super::ctx::Context;
use super::defs::{DirBlock, DirEntry2, DIR_ENTRY_HEADER_SIZE, DIR_ENTRY_TAIL_SIZE, EXT4_DIRENTRY_DIR_CSUM};
use super::io::{block_read, blocks_write};

verus! {

pub const DX_HASH_INFO_LEN: u8 = 8;
pub const DX_ROOT_INFO_OFF: usize = 24;
pub const DX_ENTRIES_OFF: usize = 32;
pub const DX_NODE_ENTRIES_OFF: usize = 8;
pub const DX_ENTRY_SIZE: usize = 8;

/// The entry `e` is the one the bytes at `off` of `raw` hold.
pub open spec fn entry_matches(e: DirEntry2, raw: Seq<u8>, off: int) -> bool {
    &&& e.inode == le32(raw, off)
    &&& e.rec_len == le16(raw, off + 4)
    &&& e.name_len == raw[off + 6]
    &&& e.file_type == raw[off + 7]
    &&& e.name@ == raw.subrange(off + 8, off + 8 + raw[off + 6])
    &&& e.entry_off == off
}

/// Where the checksum tail of a directory block sits, if it has one.
pub open spec fn tail_at(raw: Seq<u8>) -> Option<int> {
    if raw.len() < DIR_ENTRY_TAIL_SIZE {
        None
    } else {
        let off = raw.len() - DIR_ENTRY_TAIL_SIZE;
        if le32(raw, off) == 0 && le16(raw, off + 4) == DIR_ENTRY_TAIL_SIZE && raw[off + 6] == 0
            && raw[off + 7] == EXT4_DIRENTRY_DIR_CSUM {
            Some(off)
        } else {
            None
        }
    }
}

/// The end of the entry region: the tail (with checksums) or the end of the block.
pub open spec fn entry_limit(raw: Seq<u8>, metadata_csum: bool) -> int {
    if metadata_csum {
        match tail_at(raw) { Some(o) => o, None => raw.len() as int }
    } else {
        raw.len() as int
    }
}

/// The name `.`.
pub open spec fn dot_name() -> Seq<u8> {
    seq![46u8]
}

/// The name `..`.
pub open spec fn dotdot_name() -> Seq<u8> {
    seq![46u8, 46u8]
}

/// The bytes at `off` hold an entry named `name`.
pub open spec fn fake_entry_ok(raw: Seq<u8>, off: int, name: Seq<u8>) -> bool {
    &&& off + DIR_ENTRY_HEADER_SIZE + name.len() <= raw.len()
    &&& raw[off + 6] == name.len()
    &&& raw.subrange(off + 8, off + 8 + name.len()) == name
}

/// The block starts like the root of a hashed index: `.` and `..` entries spanning the block
/// and the index info after them.
pub open spec fn dx_root_head(raw: Seq<u8>) -> bool {
    &&& raw.len() >= DX_ENTRIES_OFF
    &&& fake_entry_ok(raw, 0, dot_name())
    &&& fake_entry_ok(raw, 12, dotdot_name())
    &&& le16(raw, 4) == 12
    &&& 12 + le16(raw, 16) == raw.len()
    &&& le32(raw, DX_ROOT_INFO_OFF as int) == 0
    &&& raw[DX_ROOT_INFO_OFF + 5] == DX_HASH_INFO_LEN
}

/// The block is the root of a hashed index: the head, and a non-empty count of index entries
/// that fit.
pub open spec fn dx_root_spec(raw: Seq<u8>, metadata_csum: bool) -> bool {
    &&& dx_root_head(raw)
    &&& raw.len() >= DX_ENTRIES_OFF + 4
    &&& le16(raw, DX_ENTRIES_OFF + 2) != 0
    &&& DX_ENTRIES_OFF + le16(raw, DX_ENTRIES_OFF + 2) * DX_ENTRY_SIZE <= entry_limit(raw, metadata_csum)
}

/// Whether the block is an index root, or `EIO` when its head is cut off before the count.
pub open spec fn dx_root_result(raw: Seq<u8>, metadata_csum: bool) -> Result<bool, Errno> {
    if dx_root_head(raw) && raw.len() < DX_ENTRIES_OFF + 4 {
        Err(Errno::EIO)
    } else {
        Ok(dx_root_spec(raw, metadata_csum))
    }
}

/// The block is an interior node of a hashed index: one empty entry spanning the block and a
/// non-empty count of index entries that fit.
pub open spec fn dx_node_spec(raw: Seq<u8>, metadata_csum: bool) -> bool {
    &&& raw.len() >= DX_NODE_ENTRIES_OFF + DX_ENTRY_SIZE
    &&& le32(raw, 0) == 0
    &&& raw[6] == 0
    &&& raw[7] == 0
    &&& le16(raw, 4) == raw.len()
    &&& le16(raw, DX_NODE_ENTRIES_OFF + 2) != 0
    &&& DX_NODE_ENTRIES_OFF + le16(raw, DX_NODE_ENTRIES_OFF + 2) * DX_ENTRY_SIZE <= entry_limit(raw, metadata_csum)
}

/// The offsets of the linear entries from `off` to `limit`, or why they do not parse.
pub open spec fn parse_entries(raw: Seq<u8>, off: int, limit: int) -> Result<Seq<int>, Errno>
    decreases limit - off,
{
    if off >= limit || off < 0 {
        Ok(Seq::empty())
    } else if off + DIR_ENTRY_HEADER_SIZE > usize::MAX {
        Err(Errno::EINVAL)
    } else if off + DIR_ENTRY_HEADER_SIZE > limit {
        Err(Errno::EIO)
    } else {
        let rec_len = le16(raw, off + 4);
        if rec_len < DIR_ENTRY_HEADER_SIZE || rec_len % 4 != 0 {
            Err(Errno::EIO)
        } else if off + rec_len > usize::MAX {
            Err(Errno::EINVAL)
        } else if off + rec_len > limit {
            Err(Errno::EIO)
        } else if raw[off + 6] > rec_len - DIR_ENTRY_HEADER_SIZE {
            Err(Errno::EIO)
        } else if off > u16::MAX {
            Err(Errno::EINVAL)
        } else {
            match parse_entries(raw, off + rec_len, limit) {
                Ok(rest) => Ok(seq![off] + rest),
                Err(e) => Err(e),
            }
        }
    }
}

/// The offsets of the entries a directory block holds, or why it does not parse.
pub open spec fn dir_offsets(raw: Seq<u8>, metadata_csum: bool) -> Result<Seq<int>, Errno> {
    if raw.len() < DIR_ENTRY_HEADER_SIZE {
        Err(Errno::EIO)
    } else if dx_root_result(raw, metadata_csum) is Err {
        Err(Errno::EIO)
    } else if dx_root_spec(raw, metadata_csum) {
        Ok(seq![0int, 12int])
    } else if dx_node_spec(raw, metadata_csum) {
        Ok(Seq::empty())
    } else {
        parse_entries(raw, 0, entry_limit(raw, metadata_csum))
    }
}

/// The entries are those the bytes hold at the given offsets.
pub open spec fn entries_at(entries: Seq<DirEntry2>, raw: Seq<u8>, offs: Seq<int>) -> bool {
    &&& entries.len() == offs.len()
    &&& forall|k: int| 0 <= k < offs.len() ==> entry_matches(#[trigger] entries[k], raw, offs[k])
}

/// The checksum of a directory block's entry region, or why there is none.
pub open spec fn dir_checksum_result(c: Context, ino: u32, generation: u32, raw: Seq<u8>) -> Result<u32, Errno> {
    match tail_at(raw) {
        Some(off) => Ok(crc32c(crc32c(crc32c(c.checksum_seed, le_bytes32(ino)), le_bytes32(generation)), raw.subrange(0, off))),
        None => Err(Errno::EIO),
    }
}

/// Whether a directory block's stored checksum is accepted; index blocks are let through.
pub open spec fn dir_csum_verify(c: Context, ino: u32, generation: u32, raw: Seq<u8>) -> Result<(), Errno> {
    match tail_at(raw) {
        None => if dx_node_spec(raw, c.metadata_csum) { Ok(()) } else { Err(Errno::EIO) },
        Some(off) => match dir_checksum_result(c, ino, generation, raw) {
            Ok(calc) => if le32(raw, off + 8) != calc {
                match dx_root_result(raw, c.metadata_csum) {
                    Ok(true) => Ok(()),
                    Ok(false) => Err(Errno::EOPNOTSUPP),
                    Err(e) => Err(e),
                }
            } else {
                Ok(())
            },
            Err(e) => Err(e),
        },
    }
}

/// What reading the directory block at `pblk` gives: its bytes, or the error.
pub open spec fn dir_block_read(c: Context, ino: u32, generation: u32, pblk: u64) -> Result<Seq<u8>, Errno> {
    match block_read(c, pblk as int) {
        Ok(raw) => match dir_offsets(raw, c.metadata_csum) {
            Ok(_) => if c.metadata_csum {
                match dir_csum_verify(c, ino, generation, raw) {
                    Ok(_) => Ok(raw),
                    Err(e) => Err(e),
                }
            } else {
                Ok(raw)
            },
            Err(e) => Err(e),
        },
        Err(e) => Err(e),
    }
}

/// Where the checksum tail of a directory block sits, if it has one.
pub fn dir_tail_offset(raw: &[u8]) -> (r: SysResult<Option<usize>>)
    ensures
        match r {
            Ok(Some(o)) => tail_at(raw@) == Some(o as int) && o + DIR_ENTRY_TAIL_SIZE == raw@.len(),
            Ok(None) => tail_at(raw@) is None,
            Err(_) => false,
        },
{
    if raw.len() < DIR_ENTRY_TAIL_SIZE {
        return Ok(None);
    }
    let off = raw.len() - DIR_ENTRY_TAIL_SIZE;
    let reserved_zero1 = get_u32_le(raw, off)?;
    let rec_len = get_u16_le(raw, off + 4)?;
    let reserved_zero2 = get_u8(raw, off + 6)?;
    let reserved_ft = get_u8(raw, off + 7)?;
    if reserved_zero1 == 0 && rec_len == DIR_ENTRY_TAIL_SIZE as u16 && reserved_zero2 == 0
        && reserved_ft == EXT4_DIRENTRY_DIR_CSUM {
        Ok(Some(off))
    } else {
        Ok(None)
    }
}

/// The end of the entry region.
fn entry_region_limit(raw: &[u8], metadata_csum: bool) -> (r: SysResult<usize>)
    ensures
        r == Ok::<usize, Errno>(entry_limit(raw@, metadata_csum) as usize),
{
    let tail = if metadata_csum { dir_tail_offset(raw)? } else { None };
    match tail {
        Some(t) => Ok(t),
        None => Ok(raw.len()),
    }
}

/// Writes an empty checksum tail at the end of a directory block.
pub fn init_dir_entry_tail(raw: &mut Vec<u8>) -> (r: SysResult<()>)
    ensures
        final(raw)@.len() == old(raw)@.len(),
        match r {
            Ok(_) => old(raw)@.len() >= DIR_ENTRY_TAIL_SIZE && tail_at(final(raw)@) == Some(old(raw)@.len() - DIR_ENTRY_TAIL_SIZE)
                && le32(final(raw)@, old(raw)@.len() - 4) == 0
                && final(raw)@.subrange(0, old(raw)@.len() - DIR_ENTRY_TAIL_SIZE)
                    == old(raw)@.subrange(0, old(raw)@.len() - DIR_ENTRY_TAIL_SIZE),
            Err(e) => old(raw)@.len() < DIR_ENTRY_TAIL_SIZE && e == Errno::EINVAL && final(raw)@ == old(raw)@,
        },
{
    if raw.len() < DIR_ENTRY_TAIL_SIZE {
        return Err(Errno::EINVAL);
    }
    let off = raw.len() - DIR_ENTRY_TAIL_SIZE;
    let ghost r0 = raw@;
    write_u32(raw, off, 0);
    write_u16(raw, off + 4, DIR_ENTRY_TAIL_SIZE as u16);
    raw.set(off + 6, 0);
    raw.set(off + 7, EXT4_DIRENTRY_DIR_CSUM);
    let ghost r1 = raw@;
    write_u32(raw, off + 8, 0);
    proof {
        let o = off as int;
        crate::bytes::lemma_put32_get(r1, o + 8, 0);
        assert(raw@[o] == 0 && raw@[o + 1] == 0 && raw@[o + 2] == 0 && raw@[o + 3] == 0);
        assert(raw@[o + 4] == 12 && raw@[o + 5] == 0);
        assert(raw@.subrange(0, o) =~= r0.subrange(0, o));
    }
    Ok(())
}

/// The entry named `expected_name` at `off`, if the bytes there hold one.
pub fn parse_dx_fake_entry(raw: &[u8], off: usize, expected_name: &[u8]) -> (r: SysResult<Option<DirEntry2>>)
    requires
        expected_name@.len() <= 255,
    ensures
        match r {
            Ok(Some(e)) => fake_entry_ok(raw@, off as int, expected_name@) && off <= u16::MAX && entry_matches(e, raw@, off as int)
                && dirent_wf(e),
            Ok(None) => off + DIR_ENTRY_HEADER_SIZE + expected_name@.len() <= usize::MAX && !fake_entry_ok(raw@, off as int, expected_name@),
            Err(e) => e == Errno::EINVAL && (off + DIR_ENTRY_HEADER_SIZE + expected_name@.len() > usize::MAX
                || (fake_entry_ok(raw@, off as int, expected_name@) && off > u16::MAX)),
        },
{
    if off > usize::MAX - DIR_ENTRY_HEADER_SIZE {
        return Err(Errno::EINVAL);
    }
    let header_end = off + DIR_ENTRY_HEADER_SIZE;
    if header_end > usize::MAX - expected_name.len() {
        return Err(Errno::EINVAL);
    }
    let name_end = header_end + expected_name.len();
    if name_end > raw.len() {
        return Ok(None);
    }
    let inode = read_u32(raw, off);
    let rec_len = read_u16(raw, off + 4);
    let name_len = raw[off + 6] as usize;
    let file_type = raw[off + 7];
    if name_len != expected_name.len() || !bytes_equal_at(raw, header_end, expected_name) {
        return Ok(None);
    }
    if off > 0xFFFF {
        return Err(Errno::EINVAL);
    }
    let name = copy_range(expected_name, 0, expected_name.len());
    assert(name@ =~= expected_name@);
    Ok(Some(DirEntry2 { inode, rec_len, name_len: name_len as u8, file_type, name, entry_off: off as u16 }))
}

/// Whether the block is the root of a hashed index.
pub fn is_dx_root_block(raw: &[u8], metadata_csum: bool) -> (r: SysResult<bool>)
    ensures
        r == dx_root_result(raw@, metadata_csum),
{
    if raw.len() < DX_ENTRIES_OFF {
        return Ok(false);
    }
    let dot_v: Vec<u8> = vec![46u8];
    let dotdot_v: Vec<u8> = vec![46u8, 46u8];
    assert(dot_v@ =~= dot_name());
    assert(dotdot_v@ =~= dotdot_name());
    let dot = match parse_dx_fake_entry(raw, 0, dot_v.as_slice())? {
        Some(d) => d,
        None => return Ok(false),
    };
    let dotdot = match parse_dx_fake_entry(raw, DIR_ENTRY_HEADER_SIZE + 4, dotdot_v.as_slice())? {
        Some(d) => d,
        None => return Ok(false),
    };
    if dot.rec_len as usize != DIR_ENTRY_HEADER_SIZE + 4 {
        return Ok(false);
    }
    let dotdot_end = dotdot.entry_off as usize + dotdot.rec_len as usize;
    if dotdot_end != raw.len() {
        return Ok(false);
    }
    let reserved_zero = read_u32(raw, DX_ROOT_INFO_OFF);
    let info_length = raw[DX_ROOT_INFO_OFF + 5];
    if reserved_zero != 0 || info_length != DX_HASH_INFO_LEN {
        return Ok(false);
    }
    let limit = entry_region_limit(raw, metadata_csum)?;
    let count = get_u16_le(raw, DX_ENTRIES_OFF + 2)? as usize;
    let dx_entries_end = DX_ENTRIES_OFF + count * DX_ENTRY_SIZE;
    Ok(count != 0 && dx_entries_end <= limit)
}

/// Whether the block is an interior node of a hashed index.
pub fn try_parse_dx_node(raw: &[u8], metadata_csum: bool) -> (r: SysResult<bool>)
    ensures
        r == Ok::<bool, Errno>(dx_node_spec(raw@, metadata_csum)),
{
    if raw.len() < DX_NODE_ENTRIES_OFF + DX_ENTRY_SIZE {
        return Ok(false);
    }
    let inode = read_u32(raw, 0);
    let rec_len = read_u16(raw, 4) as usize;
    let name_len = raw[6];
    let file_type = raw[7];
    if inode != 0 || name_len != 0 || file_type != 0 || rec_len != raw.len() {
        return Ok(false);
    }
    let limit = entry_region_limit(raw, metadata_csum)?;
    let count = read_u16(raw, DX_NODE_ENTRIES_OFF + 2) as usize;
    let dx_entries_end = DX_NODE_ENTRIES_OFF + count * DX_ENTRY_SIZE;
    Ok(count != 0 && dx_entries_end <= limit)
}

/// The `.` and `..` entries of a hashed-index root, or none when the block is no such root.
pub fn try_parse_dx_root_entries(raw: &[u8], metadata_csum: bool) -> (r: SysResult<Option<Vec<DirEntry2>>>)
    ensures
        match r {
            Ok(Some(v)) => dx_root_spec(raw@, metadata_csum) && entries_at(v@, raw@, seq![0int, 12int])
                && forall|k: int| 0 <= k < v@.len() ==> dirent_wf(#[trigger] v@[k]),
            Ok(None) => dx_root_result(raw@, metadata_csum) == Ok::<bool, Errno>(false),
            Err(e) => dx_root_result(raw@, metadata_csum) == Err::<bool, Errno>(e),
        },
{
    if !is_dx_root_block(raw, metadata_csum)? {
        return Ok(None);
    }
    let dot_v: Vec<u8> = vec![46u8];
    let dotdot_v: Vec<u8> = vec![46u8, 46u8];
    assert(dot_v@ =~= dot_name());
    assert(dotdot_v@ =~= dotdot_name());
    let dot = match parse_dx_fake_entry(raw, 0, dot_v.as_slice())? {
        Some(d) => d,
        None => return Err(Errno::EIO),
    };
    let dotdot = match parse_dx_fake_entry(raw, DIR_ENTRY_HEADER_SIZE + 4, dotdot_v.as_slice())? {
        Some(d) => d,
        None => return Err(Errno::EIO),
    };
    let mut v: Vec<DirEntry2> = Vec::new();
    v.push(dot);
    v.push(dotdot);
    Ok(Some(v))
}

/// Parses the linear entries of `raw` from offset 0 up to `limit`.
fn parse_linear_entries(raw: &[u8], limit: usize) -> (r: SysResult<Vec<DirEntry2>>)
    requires
        limit <= raw@.len(),
    ensures
        match r {
            Ok(v) => parse_entries(raw@, 0, limit as int) matches Ok(offs) && entries_at(v@, raw@, offs)
                && forall|k: int| 0 <= k < v@.len() ==> dirent_wf(#[trigger] v@[k]),
            Err(e) => parse_entries(raw@, 0, limit as int) == Err::<Seq<int>, Errno>(e),
        },
{
    let mut off: usize = 0;
    let mut entries: Vec<DirEntry2> = Vec::new();
    let ghost mut offs: Seq<int> = Seq::empty();
    while off < limit
        invariant
            limit <= raw@.len(),
            off <= limit,
            parse_entries(raw@, 0, limit as int) == match parse_entries(raw@, off as int, limit as int) {
                Ok(rest) => Ok::<Seq<int>, Errno>(offs + rest),
                Err(e) => Err::<Seq<int>, Errno>(e),
            },
            entries_at(entries@, raw@, offs),
            forall|k: int| 0 <= k < entries@.len() ==> dirent_wf(#[trigger] entries@[k]),
        decreases limit - off,
    {
        if off > usize::MAX - DIR_ENTRY_HEADER_SIZE {
            return Err(Errno::EINVAL);
        }
        let header_end = off + DIR_ENTRY_HEADER_SIZE;
        if header_end > limit {
            return Err(Errno::EIO);
        }
        let inode = read_u32(raw, off);
        let rec_len = read_u16(raw, off + 4);
        let name_len = raw[off + 6];
        let file_type = raw[off + 7];
        if rec_len < DIR_ENTRY_HEADER_SIZE as u16 || rec_len % 4 != 0 {
            return Err(Errno::EIO);
        }
        let rec_len_usize = rec_len as usize;
        if off > usize::MAX - rec_len_usize {
            return Err(Errno::EINVAL);
        }
        let rec_end = off + rec_len_usize;
        if rec_end > limit {
            return Err(Errno::EIO);
        }
        if name_len as usize > rec_len_usize - DIR_ENTRY_HEADER_SIZE {
            return Err(Errno::EIO);
        }
        if off > 0xFFFF {
            return Err(Errno::EINVAL);
        }
        let name_off = off + DIR_ENTRY_HEADER_SIZE;
        let name = copy_range(raw, name_off, name_off + name_len as usize);
        let e = DirEntry2 { inode, rec_len, name_len, file_type, name, entry_off: off as u16 };
        proof {
            assert(entry_matches(e, raw@, off as int));
            let rest = parse_entries(raw@, rec_end as int, limit as int);
            assert(parse_entries(raw@, off as int, limit as int) == match rest {
                Ok(r2) => Ok::<Seq<int>, Errno>(seq![off as int] + r2),
                Err(e2) => Err::<Seq<int>, Errno>(e2),
            });
            if rest is Ok {
                assert(offs + (seq![off as int] + rest->Ok_0) =~= (offs.push(off as int)) + rest->Ok_0);
            }
        }
        entries.push(e);
        proof {
            offs = offs.push(off as int);
            assert forall|k: int| 0 <= k < offs.len() implies entry_matches(#[trigger] entries@[k], raw@, offs[k]) by {
                if k < offs.len() - 1 {
                    assert(entries@[k] == old_entries(entries@, k));
                }
            }
        }
        off = rec_end;
    }
    proof {
        assert(offs + Seq::<int>::empty() =~= offs);
    }
    Ok(entries)
}

/// The element of a sequence (a name for triggering).
spec fn old_entries(s: Seq<DirEntry2>, k: int) -> DirEntry2 {
    s[k]
}

/// Parses a directory block: the `.` and `..` of an index root, nothing for an index node, or
/// the linear entries up to the checksum tail (with checksums) or the end of the block.
pub fn parse_dir_block(raw: Vec<u8>, pblk: u64, metadata_csum: bool) -> (r: SysResult<DirBlock>)
    ensures
        match r {
            Ok(b) => dir_offsets(raw@, metadata_csum) matches Ok(offs) && b.pblk == pblk && b.raw@ == raw@
                && entries_at(b.entries@, raw@, offs)
                && forall|k: int| 0 <= k < b.entries@.len() ==> dirent_wf(#[trigger] b.entries@[k]),
            Err(e) => dir_offsets(raw@, metadata_csum) == Err::<Seq<int>, Errno>(e),
        },
{
    if raw.len() < DIR_ENTRY_HEADER_SIZE {
        return Err(Errno::EIO);
    }
    match try_parse_dx_root_entries(raw.as_slice(), metadata_csum)? {
        Some(entries) => {
            return Ok(DirBlock { pblk, raw, entries });
        },
        None => {},
    }
    if try_parse_dx_node(raw.as_slice(), metadata_csum)? {
        let entries: Vec<DirEntry2> = Vec::new();
        return Ok(DirBlock { pblk, raw, entries });
    }
    let limit = entry_region_limit(raw.as_slice(), metadata_csum)?;
    let entries = parse_linear_entries(raw.as_slice(), limit)?;
    Ok(DirBlock { pblk, raw, entries })
}

impl Context {
    /// The checksum of a directory block's entry region; `EIO` without a tail.
    pub fn dir_block_checksum(&self, dir_ino: u32, dir_generation: u32, raw: &[u8]) -> (r: SysResult<u32>)
        ensures
            r == dir_checksum_result(*self, dir_ino, dir_generation, raw@),
    {
        let off = match dir_tail_offset(raw)? {
            Some(o) => o,
            None => return Err(Errno::EIO),
        };
        let mut crc = self.checksum_seed;
        let a = u32_to_le_bytes(dir_ino);
        crc = crc32c_update(crc, a.as_slice());
        let b = u32_to_le_bytes(dir_generation);
        crc = crc32c_update(crc, b.as_slice());
        let head = copy_range(raw, 0, off);
        Ok(crc32c_update(crc, head.as_slice()))
    }

    /// Checks a directory block's stored checksum, letting index blocks through.
    pub fn verify_dir_block_checksum(&self, dir_ino: u32, dir_generation: u32, raw: &[u8]) -> (r: SysResult<()>)
        ensures
            r == dir_csum_verify(*self, dir_ino, dir_generation, raw@),
    {
        let off = match dir_tail_offset(raw)? {
            Some(o) => o,
            None => {
                if try_parse_dx_node(raw, self.metadata_csum)? {
                    return Ok(());
                }
                return Err(Errno::EIO);
            },
        };
        let _n = raw.len();
        let stored = read_u32(raw, off + 8);
        let calc = self.dir_block_checksum(dir_ino, dir_generation, raw)?;
        if stored != calc {
            if is_dx_root_block(raw, self.metadata_csum)? {
                return Ok(());
            }
            return Err(Errno::EOPNOTSUPP);
        }
        Ok(())
    }

    /// Computes and stores a directory block's checksum in its tail.
    pub fn set_dir_block_checksum(&self, dir_ino: u32, dir_generation: u32, raw: &mut Vec<u8>) -> (r: SysResult<()>)
        ensures
            match r {
                Ok(_) => tail_at(old(raw)@) matches Some(off) && (dir_checksum_result(*self, dir_ino, dir_generation, old(raw)@) matches Ok(c)
                    && final(raw)@ == put32(old(raw)@, off + 8, c as int)),
                Err(e) => e == Errno::EIO && tail_at(old(raw)@) is None && final(raw)@ == old(raw)@,
            },
    {
        let off = match dir_tail_offset(raw.as_slice())? {
            Some(o) => o,
            None => return Err(Errno::EIO),
        };
        let calc = self.dir_block_checksum(dir_ino, dir_generation, raw.as_slice())?;
        let _n = raw.len();
        write_u32(raw, off + 8, calc);
        Ok(())
    }

    /// Reads, parses and (with metadata checksums) checks the directory block at `pblk`.
    pub fn read_dir_block(&self, dir_ino: u32, dir_generation: u32, pblk: u64) -> (r: SysResult<DirBlock>)
        requires
            self.wf(),
        ensures
            match r {
                Ok(b) => dir_block_read(*self, dir_ino, dir_generation, pblk) == Ok::<Seq<u8>, Errno>(b.raw@)
                    && b.pblk == pblk && (dir_offsets(b.raw@, self.metadata_csum) matches Ok(offs)
                    && entries_at(b.entries@, b.raw@, offs))
                    && forall|k: int| 0 <= k < b.entries@.len() ==> dirent_wf(#[trigger] b.entries@[k]),
                Err(e) => dir_block_read(*self, dir_ino, dir_generation, pblk) == Err::<Seq<u8>, Errno>(e),
            },
    {
        let raw = self.read_fs_block(pblk)?;
        let block = parse_dir_block(raw, pblk, self.metadata_csum)?;
        if self.metadata_csum {
            self.verify_dir_block_checksum(dir_ino, dir_generation, block.raw.as_slice())?;
        }
        Ok(block)
    }
}

/// Offset of entry `k` when the entries are laid out back to back.
pub open spec fn rec_off(es: Seq<DirEntry2>, k: int) -> int
    decreases k,
{
    if k <= 0 { 0 } else { rec_off(es, k - 1) + es[k - 1].rec_len }
}

/// An entry can be written: its record is aligned, holds a header, and holds its name.
pub open spec fn entry_writable(e: DirEntry2) -> bool {
    &&& e.rec_len >= DIR_ENTRY_HEADER_SIZE
    &&& e.rec_len % 4 == 0
    &&& e.name_len <= e.rec_len - DIR_ENTRY_HEADER_SIZE
}

/// The entries can be laid out back to back to fill exactly `limit` bytes.
pub open spec fn layout_ok(es: Seq<DirEntry2>, limit: int) -> bool {
    &&& forall|k: int| 0 <= k < es.len() ==> entry_writable(#[trigger] es[k]) && rec_off(es, k) <= u16::MAX
        && rec_off(es, k + 1) <= limit
    &&& rec_off(es, es.len() as int) == limit
}


/// The entry as written at offset `off`.
pub open spec fn placed(e: DirEntry2, off: int) -> DirEntry2 {
    DirEntry2 { entry_off: off as u16, ..e }
}

/// An entry holds exactly its name's bytes.
pub open spec fn dirent_wf(e: DirEntry2) -> bool {
    e.name@.len() == e.name_len
}

/// Byte `i` lies in the header or name of entry `k` when the entries are laid out back to back.
pub open spec fn in_record(es: Seq<DirEntry2>, k: int, i: int) -> bool {
    rec_off(es, k) <= i < rec_off(es, k) + DIR_ENTRY_HEADER_SIZE + es[k].name_len
}

/// Byte `i` lies in no header or name of the first `j` entries.
pub open spec fn untouched(es: Seq<DirEntry2>, j: int, i: int) -> bool {
    forall|k: int| 0 <= k < j ==> !#[trigger] in_record(es, k, i)
}

/// The offsets at which the entries start when laid out back to back.
pub open spec fn laid_out_offsets(es: Seq<DirEntry2>) -> Seq<int> {
    Seq::new(es.len(), |k: int| rec_off(es, k))
}

/// Whether a write of a block's worth of bytes succeeds does not depend on the bytes.
proof fn lemma_blocks_write_same_len(c: Context, pblk: int, a: Seq<u8>, b: Seq<u8>)
    requires
        a.len() == b.len(),
    ensures
        blocks_write(c, pblk, a) is Ok <==> blocks_write(c, pblk, b) is Ok,
{
}

/// Offsets of later entries are no smaller.
proof fn lemma_rec_off_mono(es: Seq<DirEntry2>, a: int, b: int)
    requires
        0 <= a <= b,
    ensures
        rec_off(es, a) <= rec_off(es, b),
    decreases b - a,
{
    if a < b {
        lemma_rec_off_mono(es, a, b - 1);
    }
}

/// An entry read from bytes is read again from bytes that agree on its header and name.
proof fn lemma_entry_matches_frame(e: DirEntry2, a: Seq<u8>, b: Seq<u8>, off: int)
    requires
        entry_matches(e, a, off),
        0 <= off,
        off + DIR_ENTRY_HEADER_SIZE + e.name_len <= a.len(),
        a.len() == b.len(),
        forall|i: int| off <= i < off + DIR_ENTRY_HEADER_SIZE + e.name_len ==> #[trigger] b[i] == a[i],
    ensures
        entry_matches(e, b, off),
{
    assert(b[off] == a[off] && b[off + 1] == a[off + 1] && b[off + 2] == a[off + 2] && b[off + 3] == a[off + 3]);
    assert(b[off + 4] == a[off + 4] && b[off + 5] == a[off + 5] && b[off + 6] == a[off + 6] && b[off + 7] == a[off + 7]);
    assert(b.subrange(off + 8, off + 8 + b[off + 6]) =~= a.subrange(off + 8, off + 8 + a[off + 6]));
}

/// Entries laid out back to back parse back at their offsets, from entry `j` on.
proof fn lemma_parse_laid_out(raw: Seq<u8>, es: Seq<DirEntry2>, limit: int, j: int)
    requires
        0 <= j <= es.len(),
        layout_ok(es, limit),
        limit <= raw.len(),
        limit <= usize::MAX,
        forall|k: int| 0 <= k < es.len() ==> entry_matches(placed(#[trigger] es[k], rec_off(es, k)), raw, rec_off(es, k)),
    ensures
        parse_entries(raw, rec_off(es, j), limit) == Ok::<Seq<int>, Errno>(laid_out_offsets(es).subrange(j, es.len() as int)),
    decreases es.len() - j,
{
    let n = es.len() as int;
    if j == n {
        assert(laid_out_offsets(es).subrange(j, n) =~= Seq::<int>::empty());
    } else {
        let off = rec_off(es, j);
        lemma_rec_off_mono(es, 0, j);
        assert(entry_writable(es[j]) && rec_off(es, j) <= u16::MAX && rec_off(es, j + 1) <= limit);
        assert(entry_matches(placed(es[j], off), raw, off));
        assert(rec_off(es, j + 1) == off + es[j].rec_len);
        lemma_parse_laid_out(raw, es, limit, j + 1);
        assert(laid_out_offsets(es).subrange(j, n) =~= seq![off] + laid_out_offsets(es).subrange(j + 1, n));
    }
}

/// What the bytes of a block hold after its entries were laid out back to back in zeroed
/// bytes (and the block sealed, with checksums).
pub open spec fn laid_out_block(raw: Seq<u8>, es: Seq<DirEntry2>, limit: int, metadata_csum: bool) -> bool {
    &&& raw.len() >= 1024
    &&& raw.len() <= usize::MAX
    &&& limit == if metadata_csum { raw.len() - DIR_ENTRY_TAIL_SIZE } else { raw.len() as int }
    &&& metadata_csum ==> tail_at(raw) == Some(limit)
    &&& layout_ok(es, limit)
    &&& forall|k: int| 0 <= k < es.len() ==> entry_matches(placed(#[trigger] es[k], rec_off(es, k)), raw, rec_off(es, k))
    &&& forall|i: int| 0 <= i < limit && untouched(es, es.len() as int, i) ==> raw[i] == 0
}

/// A byte before entry `j0` that no earlier entry's header or name covers stays zero.
proof fn lemma_zero_byte(raw: Seq<u8>, es: Seq<DirEntry2>, limit: int, i: int, j0: int)
    requires
        forall|i: int| 0 <= i < limit && untouched(es, es.len() as int, i) ==> raw[i] == 0,
        0 <= j0 <= es.len(),
        0 <= i < limit,
        i < rec_off(es, j0),
        forall|k: int| 0 <= k < j0 ==> !#[trigger] in_record(es, k, i),
    ensures
        raw[i] == 0,
{
    assert forall|k: int| 0 <= k < es.len() implies !#[trigger] in_record(es, k, i) by {
        if k >= j0 {
            lemma_rec_off_mono(es, j0, k);
        }
    }
    assert(untouched(es, es.len() as int, i));
}

/// Bytes whose first record is not 12 long, or whose second does not reach the end, or
/// whose index info is zero, are no index root.
proof fn lemma_not_dx_root_bytes(raw: Seq<u8>, limit: int, metadata_csum: bool)
    requires
        raw.len() >= 1024,
        limit == if metadata_csum { raw.len() - DIR_ENTRY_TAIL_SIZE } else { raw.len() as int },
        le16(raw, 4) == 12 ==> 12 + le16(raw, 16) <= limit,
        le16(raw, 4) == 12 && 12 + le16(raw, 16) == raw.len() && raw[18] == 2 ==> raw[29] == 0,
    ensures
        !dx_root_head(raw),
{
}

/// Bytes whose first record does not span the block, or whose bytes 10 and 11 are zero, are
/// no index node.
proof fn lemma_not_dx_node_bytes(raw: Seq<u8>, limit: int, metadata_csum: bool)
    requires
        raw.len() >= 1024,
        limit == if metadata_csum { raw.len() - DIR_ENTRY_TAIL_SIZE } else { raw.len() as int },
        le16(raw, 4) <= limit,
        le16(raw, 4) == raw.len() && raw[6] == 0 ==> raw[10] == 0 && raw[11] == 0,
    ensures
        !dx_node_spec(raw, metadata_csum),
{
}

/// Such a block is no index block, and its entries parse at their offsets.
#[verifier::rlimit(100)]
#[verifier::spinoff_prover]
proof fn lemma_laid_out_offsets(raw: Seq<u8>, es: Seq<DirEntry2>, limit: int, metadata_csum: bool)
    requires
        laid_out_block(raw, es, limit, metadata_csum),
    ensures
        dir_offsets(raw, metadata_csum) == Ok::<Seq<int>, Errno>(laid_out_offsets(es)),
{
    let n = es.len() as int;
    assert(entry_limit(raw, metadata_csum) == limit);
    if n == 0 {
        assert(rec_off(es, 0) == 0);
    }
    assert(rec_off(es, 0) == 0);
    assert(entry_matches(placed(es[0], rec_off(es, 0)), raw, rec_off(es, 0)));
    assert(entry_writable(es[0]) && rec_off(es, 1) <= limit);
    assert(rec_off(es, 1) == es[0].rec_len);
    if le16(raw, 4) == 12 {
        assert(n >= 2) by {
            if n == 1 {
                assert(rec_off(es, 1) == limit);
            }
        }
        assert(entry_matches(placed(es[1], rec_off(es, 1)), raw, rec_off(es, 1)));
        assert(entry_writable(es[1]) && rec_off(es, 2) <= limit);
        assert(rec_off(es, 2) == 12 + es[1].rec_len);
        if 12 + le16(raw, 16) == raw.len() && raw[18] == 2 {
            assert(!in_record(es, 0, 29));
            assert(!in_record(es, 1, 29));
            lemma_zero_byte(raw, es, limit, 29, 2);
        }
    }
    lemma_not_dx_root_bytes(raw, limit, metadata_csum);
    if le16(raw, 4) == raw.len() && raw[6] == 0 {
        assert(!in_record(es, 0, 10) && !in_record(es, 0, 11));
        lemma_zero_byte(raw, es, limit, 10, 1);
        lemma_zero_byte(raw, es, limit, 11, 1);
    }
    lemma_not_dx_node_bytes(raw, limit, metadata_csum);
    lemma_parse_laid_out(raw, es, limit, 0);
    assert(laid_out_offsets(es).subrange(0, n) =~= laid_out_offsets(es));
}

/// Writes the header and name of `e` at `off`.
fn write_dirent_at(raw: &mut Vec<u8>, off: usize, e: &DirEntry2)
    requires
        dirent_wf(*e),
        off <= u16::MAX,
        off + DIR_ENTRY_HEADER_SIZE + e.name_len <= old(raw)@.len(),
    ensures
        final(raw)@.len() == old(raw)@.len(),
        entry_matches(placed(*e, off as int), final(raw)@, off as int),
        forall|i: int| 0 <= i < final(raw)@.len() && !(off <= i < off + DIR_ENTRY_HEADER_SIZE + e.name_len)
            ==> #[trigger] final(raw)@[i] == old(raw)@[i],
{
    let _n = raw.len();
    let ghost r0 = raw@;
    write_u32(raw, off, e.inode);
    let ghost r1 = raw@;
    write_u16(raw, off + 4, e.rec_len);
    let ghost r2 = raw@;
    raw.set(off + 6, e.name_len);
    raw.set(off + 7, e.file_type);
    let ghost r3 = raw@;
    copy_into(raw, off + DIR_ENTRY_HEADER_SIZE, e.name.as_slice());
    proof {
        let o = off as int;
        crate::bytes::lemma_put32_get(r0, o, e.inode as int);
        crate::bytes::lemma_put16_get(r1, o + 4, e.rec_len as int);
        let r4 = raw@;
        assert(r4[o] == r1[o] && r4[o + 1] == r1[o + 1] && r4[o + 2] == r1[o + 2] && r4[o + 3] == r1[o + 3]);
        assert(r4[o + 4] == r2[o + 4] && r4[o + 5] == r2[o + 5]);
        assert(r4[o + 6] == e.name_len && r4[o + 7] == e.file_type);
        assert(r4.subrange(o + 8, o + 8 + e.name_len) =~= e.name@);
    }
}

/// Writes the entries back to back into a zeroed buffer, recording each one's offset; gives
/// the offset after the last record, or `EINVAL` at the first record that does not fit.
#[verifier::rlimit(100)]
#[verifier::spinoff_prover]
fn lay_out_entries(raw: &mut Vec<u8>, entries: &mut Vec<DirEntry2>, limit: usize) -> (r: SysResult<usize>)
    requires
        limit <= old(raw)@.len(),
        forall|k: int| 0 <= k < old(entries)@.len() ==> dirent_wf(#[trigger] old(entries)@[k]),
    ensures
        final(raw)@.len() == old(raw)@.len(),
        final(entries)@.len() == old(entries)@.len(),
        match r {
            Ok(off) => off == rec_off(old(entries)@, old(entries)@.len() as int) && off <= limit
                && (forall|k: int| 0 <= k < old(entries)@.len() ==> entry_writable(#[trigger] old(entries)@[k])
                    && rec_off(old(entries)@, k) <= u16::MAX && rec_off(old(entries)@, k + 1) <= limit)
                && (forall|k: int| 0 <= k < old(entries)@.len() ==> #[trigger] final(entries)@[k]
                    == placed(old(entries)@[k], rec_off(old(entries)@, k)))
                && (forall|k: int| 0 <= k < old(entries)@.len() ==> entry_matches(#[trigger] final(entries)@[k],
                    final(raw)@, rec_off(old(entries)@, k)))
                && (forall|i: int| 0 <= i < final(raw)@.len() && untouched(old(entries)@, old(entries)@.len() as int, i)
                    ==> #[trigger] final(raw)@[i] == old(raw)@[i]),
            Err(e) => e == Errno::EINVAL && !layout_ok(old(entries)@, limit as int),
        },
{
    let ghost es = entries@;
    let n = entries.len();
    let mut off: usize = 0;
    let mut j: usize = 0;
    while j < n
        invariant
            n == es.len(),
            entries@.len() == n,
            es == old(entries)@,
            forall|k: int| 0 <= k < n ==> dirent_wf(#[trigger] es[k]),
            forall|k: int| j <= k < n ==> #[trigger] entries@[k] == es[k],
            forall|k: int| 0 <= k < j ==> #[trigger] entries@[k] == placed(es[k], rec_off(es, k)),
            raw@.len() == old(raw)@.len(),
            limit <= raw@.len(),
            j <= n,
            off == rec_off(es, j as int),
            off <= limit,
            forall|k: int| 0 <= k < j ==> entry_writable(#[trigger] es[k]) && rec_off(es, k) <= u16::MAX
                && rec_off(es, k + 1) <= limit,
            forall|k: int| 0 <= k < j ==> entry_matches(#[trigger] entries@[k], raw@, rec_off(es, k)),
            forall|i: int| 0 <= i < raw@.len() && untouched(es, j as int, i) ==> #[trigger] raw@[i] == old(raw)@[i],
        decreases n - j,
    {
        let rec_len = entries[j].rec_len;
        if rec_len < DIR_ENTRY_HEADER_SIZE as u16 || rec_len % 4 != 0 {
            return Err(Errno::EINVAL);
        }
        let rec = rec_len as usize;
        let name_len = entries[j].name_len as usize;
        if name_len > rec - DIR_ENTRY_HEADER_SIZE {
            return Err(Errno::EINVAL);
        }
        let end = off + rec;
        if end > limit {
            return Err(Errno::EINVAL);
        }
        if off > 0xFFFF {
            return Err(Errno::EINVAL);
        }
        let ghost before = raw@;
        let ghost ents = entries@;
        write_dirent_at(raw, off, &entries[j]);
        set_entry_off(entries, j, off as u16);
        proof {
            assert forall|k: int| 0 <= k < j + 1 implies entry_matches(#[trigger] entries@[k], raw@, rec_off(es, k)) by {
                if k < j {
                    lemma_rec_off_mono(es, k + 1, j as int);
                    assert(entries@[k] == ents[k]);
                    lemma_entry_matches_frame(ents[k], before, raw@, rec_off(es, k));
                }
            }
            assert forall|i: int| 0 <= i < raw@.len() && untouched(es, j + 1, i) implies #[trigger] raw@[i] == old(raw)@[i] by {
                assert(!in_record(es, j as int, i));
                assert forall|k: int| 0 <= k < j implies !#[trigger] in_record(es, k, i) by {
                    assert(!in_record(es, k, i));
                }
                assert(untouched(es, j as int, i));
                assert(raw@[i] == before[i]);
            }
        }
        off = end;
        j += 1;
    }
    Ok(off)
}


/// Records where entry `j` now lies.
fn set_entry_off(entries: &mut Vec<DirEntry2>, j: usize, off: u16)
    requires
        j < old(entries)@.len(),
    ensures
        final(entries)@ == old(entries)@.update(j as int, placed(old(entries)@[j as int], off as int)),
{
    let mut e = entries.remove(j);
    e.entry_off = off;
    entries.insert(j, e);
    assert(entries@ =~= old(entries)@.update(j as int, placed(old(entries)@[j as int], off as int)));
}






impl Context {
    /// Writes the checksum tail of a directory block and stores its checksum there.
    #[verifier::spinoff_prover]
    #[verifier::rlimit(40)]
    pub fn seal_dir_raw(&self, dir_ino: u32, dir_generation: u32, raw: &mut Vec<u8>) -> (r: SysResult<()>)
        ensures
            final(raw)@.len() == old(raw)@.len(),
            old(raw)@.len() < DIR_ENTRY_TAIL_SIZE ==> r == Err::<(), Errno>(Errno::EINVAL),
            old(raw)@.len() >= DIR_ENTRY_TAIL_SIZE ==> r is Ok,
            r is Ok ==> old(raw)@.len() >= DIR_ENTRY_TAIL_SIZE
                && tail_at(final(raw)@) == Some(old(raw)@.len() - DIR_ENTRY_TAIL_SIZE)
                && final(raw)@.subrange(0, old(raw)@.len() - DIR_ENTRY_TAIL_SIZE)
                    == old(raw)@.subrange(0, old(raw)@.len() - DIR_ENTRY_TAIL_SIZE)
                && (dir_checksum_result(*self, dir_ino, dir_generation, final(raw)@) matches Ok(c)
                && le32(final(raw)@, old(raw)@.len() - 4) == c),
    {
        init_dir_entry_tail(raw)?;
        let ghost mid = raw@;
        self.set_dir_block_checksum(dir_ino, dir_generation, raw)?;
        proof {
            let t = mid.len() - DIR_ENTRY_TAIL_SIZE;
            crate::bytes::lemma_put32_get(mid, t + 8, le32(raw@, t + 8));
            assert(raw@[t] == mid[t] && raw@[t + 1] == mid[t + 1] && raw@[t + 2] == mid[t + 2] && raw@[t + 3] == mid[t + 3]);
            assert(raw@[t + 4] == mid[t + 4] && raw@[t + 5] == mid[t + 5] && raw@[t + 6] == mid[t + 6] && raw@[t + 7] == mid[t + 7]);
            assert(raw@.subrange(0, t) =~= mid.subrange(0, t));
        }
        Ok(())
    }

    /// Lays the entries out back to back in a zeroed block, adds the checksum tail (with
    /// metadata checksums), records each entry's offset, and writes the block.
    #[verifier::rlimit(100)]
    #[verifier::spinoff_prover]
    pub fn write_dir_block(&mut self, dir_ino: u32, dir_generation: u32, block: &mut DirBlock) -> (r: SysResult<()>)
        requires
            old(self).wf(),
            forall|k: int| 0 <= k < old(block).entries@.len() ==> dirent_wf(#[trigger] old(block).entries@[k]),
        ensures
            final(self).unchanged_but_dev(*old(self)),
            final(block).pblk == old(block).pblk,
            final(block).entries@.len() == old(block).entries@.len(),
            ({
                let bs = old(self).block_size as int;
                let limit = if old(self).metadata_csum { bs - DIR_ENTRY_TAIL_SIZE } else { bs };
                let es = old(block).entries@;
                &&& !layout_ok(es, limit) ==> r == Err::<(), Errno>(Errno::EINVAL) && final(self).dev@ == old(self).dev@
                &&& layout_ok(es, limit) && blocks_write(*old(self), old(block).pblk as int,
                    Seq::new(bs as nat, |i: int| 0u8)) is Ok ==> r is Ok
                &&& r is Ok ==> {
                    &&& layout_ok(es, limit)
                    &&& final(block).raw@.len() == bs
                    &&& forall|k: int| 0 <= k < es.len() ==> #[trigger] final(block).entries@[k] == placed(es[k], rec_off(es, k))
                    &&& old(self).metadata_csum ==> tail_at(final(block).raw@) == Some(limit)
                        && (dir_checksum_result(*old(self), dir_ino, dir_generation, final(block).raw@) matches Ok(c)
                        && le32(final(block).raw@, limit + 8) == c)
                    &&& blocks_write(*old(self), old(block).pblk as int, final(block).raw@) == Ok::<Seq<u8>, Errno>(final(self).dev@)
                    &&& dir_block_read(*final(self), dir_ino, dir_generation, old(block).pblk) == Ok::<Seq<u8>, Errno>(final(block).raw@)
                    &&& dir_offsets(final(block).raw@, old(self).metadata_csum) == Ok::<Seq<int>, Errno>(laid_out_offsets(es))
                    &&& entries_at(final(block).entries@, final(block).raw@, laid_out_offsets(es))
                }
                &&& r is Err ==> final(self).dev@ == old(self).dev@
            }),
    {
        let bs = self.block_size as usize;
        let mut raw: Vec<u8> = if block.raw.len() == bs {
            let mut reused: Vec<u8> = Vec::new();
            std::mem::swap(&mut reused, &mut block.raw);
            let n = reused.len();
            crate::bytes::fill_zero(&mut reused, 0, n);
            reused
        } else {
            vec![0u8; bs]
        };
        assert(raw@ =~= Seq::new(bs as nat, |i: int| 0u8));
        let limit = if self.metadata_csum {
            if raw.len() < DIR_ENTRY_TAIL_SIZE {
                return Err(Errno::EINVAL);
            }
            raw.len() - DIR_ENTRY_TAIL_SIZE
        } else {
            raw.len()
        };
        let ghost es = block.entries@;
        let ghost zeroed = raw@;
        let n = block.entries.len();
        let off = lay_out_entries(&mut raw, &mut block.entries, limit)?;
        if off != limit {
            return Err(Errno::EINVAL);
        }
        let ghost laid = raw@;
        if self.metadata_csum {
            self.seal_dir_raw(dir_ino, dir_generation, &mut raw)?;
        }
        proof {
            let fin = raw@;
            assert forall|i: int| 0 <= i < limit implies #[trigger] fin[i] == laid[i] by {
                if self.metadata_csum {
                    assert(fin.subrange(0, limit as int)[i] == laid.subrange(0, limit as int)[i]);
                }
            }
            assert forall|k: int| 0 <= k < es.len() implies entry_matches(placed(#[trigger] es[k], rec_off(es, k)), fin,
                rec_off(es, k)) by {
                assert(block.entries@[k] == placed(es[k], rec_off(es, k)));
                assert(entry_matches(block.entries@[k], laid, rec_off(es, k)));
                lemma_entry_matches_frame(block.entries@[k], laid, fin, rec_off(es, k));
            }
            assert forall|i: int| 0 <= i < limit && untouched(es, es.len() as int, i) implies fin[i] == 0 by {
                assert(laid[i] == zeroed[i]);
            }
            assert(laid_out_block(fin, es, limit as int, self.metadata_csum));
            lemma_laid_out_offsets(fin, es, limit as int, self.metadata_csum);
        }
        block.raw = raw;
        let ghost before = *self;
        proof {
            lemma_blocks_write_same_len(before, block.pblk as int, block.raw@, Seq::new(bs as nat, |i: int| 0u8));
        }
        self.write_fs_block(block.pblk, block.raw.as_slice())?;
        proof {
            let fin = block.raw@;
            crate::ext4::group_desc::lemma_block_read_after_store(before, *self, block.pblk as int, fin);
            assert forall|k: int| 0 <= k < es.len() implies entry_matches(#[trigger] block.entries@[k], fin,
                laid_out_offsets(es)[k]) by {
                assert(block.entries@[k] == placed(es[k], rec_off(es, k)));
            }
        }
        Ok(())
    }
}

} // verus!
