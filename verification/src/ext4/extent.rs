//! Extent nodes: parsing, encoding, tail checksums and reading and writing them.
use vstd::prelude::*;
use crate::bytes::{le16, le32, put16, put32, le_bytes32, get_u16_le, get_u32_le, read_u16, read_u32, write_u16,
    write_u32, copy_range, u32_to_le_bytes};
use crate::crc::{crc32c, crc32c_update};
use crate::errno::{Errno, SysResult};
use super::ctx::Context;
use super::defs::{Ext4Inode, ExtentBlock, ExtentHeader, ExtentIdx, ExtentLeaf, EXT4_EXTENT_MAGIC,
    EXTENT_HEADER_SIZE, EXTENT_ENTRY_SIZE, INODE_BLOCK_ARRAY_OFF, INODE_BLOCK_ARRAY_SIZE};
use super::io::{block_read, blocks_write, wrote};

verus! {

/// The header an extent node's bytes hold.
pub open spec fn header_of(raw: Seq<u8>) -> ExtentHeader {
    ExtentHeader {
        eh_magic: le16(raw, 0) as u16,
        eh_entries: le16(raw, 2) as u16,
        eh_max: le16(raw, 4) as u16,
        eh_depth: le16(raw, 6) as u16,
        eh_generation: le32(raw, 8) as u32,
    }
}

/// Byte offset of entry `i`.
pub open spec fn entry_off(i: int) -> int {
    EXTENT_HEADER_SIZE + i * EXTENT_ENTRY_SIZE
}

/// Leaf entry `i` of an extent node's bytes.
pub open spec fn leaf_at(raw: Seq<u8>, i: int) -> ExtentLeaf {
    let off = entry_off(i);
    ExtentLeaf {
        ee_block: le32(raw, off) as u32,
        ee_len_raw: le16(raw, off + 4) as u16,
        ee_start: (le16(raw, off + 6) * 0x1_0000_0000 + le32(raw, off + 8)) as u64,
    }
}

/// Index entry `i` of an extent node's bytes.
pub open spec fn idx_at(raw: Seq<u8>, i: int) -> ExtentIdx {
    let off = entry_off(i);
    ExtentIdx { ei_block: le32(raw, off) as u32, ei_leaf: (le16(raw, off + 8) * 0x1_0000_0000 + le32(raw, off + 4)) as u64 }
}

/// The leaf entries of a depth-zero node.
pub open spec fn leaves_of(raw: Seq<u8>) -> Seq<ExtentLeaf> {
    Seq::new(header_of(raw).eh_entries as nat, |i: int| leaf_at(raw, i))
}

/// The index entries of an interior node.
pub open spec fn idxs_of(raw: Seq<u8>) -> Seq<ExtentIdx> {
    Seq::new(header_of(raw).eh_entries as nat, |i: int| idx_at(raw, i))
}

/// Where the tail checksum of a node with room for `eh_max` entries lies.
pub open spec fn tail_off(eh_max: u16) -> int {
    EXTENT_HEADER_SIZE + eh_max * EXTENT_ENTRY_SIZE
}

/// Why extent node bytes do not parse, if they do not.
pub open spec fn extent_parse_error(raw: Seq<u8>, is_root: bool, block_size: int) -> Option<Errno> {
    let h = header_of(raw);
    if !is_root && raw.len() != block_size {
        Some(Errno::EINVAL)
    } else if raw.len() < EXTENT_HEADER_SIZE {
        Some(Errno::EIO)
    } else if h.eh_magic != EXT4_EXTENT_MAGIC {
        Some(Errno::EIO)
    } else if h.eh_entries > h.eh_max {
        Some(Errno::EIO)
    } else if entry_off(h.eh_entries as int) > raw.len() {
        Some(Errno::EIO)
    } else if !is_root && tail_off(h.eh_max) + 4 > raw.len() {
        Some(Errno::EIO)
    } else {
        None
    }
}

/// The parsed parts of extent node bytes that parse.
pub open spec fn extent_parts(raw: Seq<u8>, is_root: bool, header: ExtentHeader, idx: Seq<ExtentIdx>,
    leaf: Seq<ExtentLeaf>, tail: Option<u32>) -> bool {
    &&& header == header_of(raw)
    &&& (header.eh_depth == 0 ==> leaf == leaves_of(raw) && idx.len() == 0)
    &&& (header.eh_depth != 0 ==> idx == idxs_of(raw) && leaf.len() == 0)
    &&& tail == (if is_root { None } else { Some(le32(raw, tail_off(header.eh_max)) as u32) })
}

/// The checksum of an extent node owned by inode `ino`, or the error.
pub open spec fn extent_checksum_result(c: Context, ino: u32, generation: u32, raw: Seq<u8>, eh_max: u16) -> Result<u32, Errno> {
    if tail_off(eh_max) > raw.len() {
        Err(Errno::EIO)
    } else {
        Ok(crc32c(crc32c(crc32c(c.checksum_seed, le_bytes32(ino)), le_bytes32(generation)), raw.subrange(0, tail_off(eh_max))))
    }
}

/// What reading the extent node at `pblk` yields: its bytes, or the error.
pub open spec fn extent_block_read(c: Context, ino: u32, generation: u32, pblk: u64) -> Result<Seq<u8>, Errno> {
    match block_read(c, pblk as int) {
        Ok(raw) => match extent_parse_error(raw, false, c.block_size as int) {
            Some(e) => Err(e),
            None => if c.metadata_csum {
                match extent_checksum_result(c, ino, generation, raw, header_of(raw).eh_max) {
                    Ok(calc) => if le32(raw, tail_off(header_of(raw).eh_max)) != calc { Err(Errno::EIO) } else { Ok(raw) },
                    Err(e) => Err(e),
                }
            } else {
                Ok(raw)
            },
        },
        Err(e) => Err(e),
    }
}

/// An extent node of bytes `raw` at `pblk`, parsed.
pub open spec fn extent_block_of(b: ExtentBlock, raw: Seq<u8>, pblk: u64, is_root: bool) -> bool {
    &&& b.pblk == pblk
    &&& b.raw@ == (if is_root { Seq::<u8>::empty() } else { raw })
    &&& extent_parts(raw, is_root, b.header, b.idx@, b.leaf@, b.tail_checksum)
}

/// `raw` with `h` stored as an extent header.
pub open spec fn header_encode(raw: Seq<u8>, h: ExtentHeader) -> Seq<u8> {
    put32(put16(put16(put16(put16(raw, 0, h.eh_magic as int), 2, h.eh_entries as int), 4, h.eh_max as int), 6,
        h.eh_depth as int), 8, h.eh_generation as int)
}

/// The bytes of an entry slot hold the entry: a leaf at depth zero, an index elsewhere
/// (physical block numbers keep their low 48 bits).
pub open spec fn entries_encoded(raw: Seq<u8>, b: ExtentBlock, n: int) -> bool {
    if b.header.eh_depth == 0 {
        forall|i: int| 0 <= i < n ==> #[trigger] leaf_at(raw, i) == (ExtentLeaf {
            ee_start: (b.leaf@[i].ee_start as int % 0x1_0000_0000_0000) as u64,
            ..b.leaf@[i]
        })
    } else {
        forall|i: int| 0 <= i < n ==> #[trigger] idx_at(raw, i) == (ExtentIdx {
            ei_leaf: (b.idx@[i].ei_leaf as int % 0x1_0000_0000_0000) as u64,
            ..b.idx@[i]
        }) && le16(raw, entry_off(i) + 10) == 0
    }
}

/// Why a node does not encode, if it does not.
pub open spec fn extent_encode_error(b: ExtentBlock) -> Option<Errno> {
    let n = b.header.eh_entries as int;
    if b.raw@.len() < EXTENT_HEADER_SIZE {
        Some(Errno::EINVAL)
    } else if b.header.eh_entries > b.header.eh_max {
        Some(Errno::EINVAL)
    } else if b.header.eh_depth == 0 && b.leaf@.len() != n {
        Some(Errno::EINVAL)
    } else if b.header.eh_depth != 0 && b.idx@.len() != n {
        Some(Errno::EINVAL)
    } else if entry_off(n) > b.raw@.len() {
        Some(Errno::EIO)
    } else {
        None
    }
}

/// Where the tail checksum of a node with room for `eh_max` entries lies.
pub fn extent_tail_offset(eh_max: u16) -> (r: SysResult<usize>)
    ensures
        r == Ok::<usize, Errno>(tail_off(eh_max) as usize),
{
    Ok(EXTENT_HEADER_SIZE + (eh_max as usize) * EXTENT_ENTRY_SIZE)
}

/// Parses an extent header; `EIO` when the bytes are too short.
pub fn parse_extent_header(raw: &[u8]) -> (r: SysResult<ExtentHeader>)
    ensures
        match r {
            Ok(h) => raw@.len() >= EXTENT_HEADER_SIZE && h == header_of(raw@),
            Err(e) => raw@.len() < EXTENT_HEADER_SIZE && e == Errno::EIO,
        },
{
    if raw.len() < EXTENT_HEADER_SIZE {
        return Err(Errno::EIO);
    }
    Ok(ExtentHeader {
        eh_magic: get_u16_le(raw, 0)?,
        eh_entries: get_u16_le(raw, 2)?,
        eh_max: get_u16_le(raw, 4)?,
        eh_depth: get_u16_le(raw, 6)?,
        eh_generation: get_u32_le(raw, 8)?,
    })
}

/// Parses extent node bytes into header, entries and (but for the in-inode root) tail checksum.
pub fn parse_extent_block_view(raw: &[u8], is_root: bool, block_size: usize)
    -> (r: SysResult<(ExtentHeader, Vec<ExtentIdx>, Vec<ExtentLeaf>, Option<u32>)>)
    ensures
        match r {
            Ok(p) => extent_parse_error(raw@, is_root, block_size as int) is None
                && extent_parts(raw@, is_root, p.0, p.1@, p.2@, p.3),
            Err(e) => extent_parse_error(raw@, is_root, block_size as int) == Some(e),
        },
{
    if !is_root && raw.len() != block_size {
        return Err(Errno::EINVAL);
    }
    if raw.len() < EXTENT_HEADER_SIZE {
        return Err(Errno::EIO);
    }
    let header = parse_extent_header(raw)?;
    if header.eh_magic != EXT4_EXTENT_MAGIC {
        return Err(Errno::EIO);
    }
    if header.eh_entries > header.eh_max {
        return Err(Errno::EIO);
    }
    let n = header.eh_entries as usize;
    let entries_end = EXTENT_HEADER_SIZE + n * EXTENT_ENTRY_SIZE;
    if entries_end > raw.len() {
        return Err(Errno::EIO);
    }
    let mut idx: Vec<ExtentIdx> = Vec::new();
    let mut leaf: Vec<ExtentLeaf> = Vec::new();
    if header.eh_depth == 0 {
        let mut i: usize = 0;
        while i < n
            invariant
                i <= n,
                n == header_of(raw@).eh_entries,
                entry_off(n as int) <= raw@.len(),
                leaf@ == leaves_of(raw@).subrange(0, i as int),
            decreases n - i,
        {
            let off = EXTENT_HEADER_SIZE + i * EXTENT_ENTRY_SIZE;
            let hi = read_u16(raw, off + 6) as u64;
            let lo = read_u32(raw, off + 8) as u64;
            leaf.push(ExtentLeaf { ee_block: read_u32(raw, off), ee_len_raw: read_u16(raw, off + 4), ee_start: hi * 0x1_0000_0000 + lo });
            i += 1;
            assert(leaf@ =~= leaves_of(raw@).subrange(0, i as int));
        }
        assert(leaf@ =~= leaves_of(raw@));
    } else {
        let mut i: usize = 0;
        while i < n
            invariant
                i <= n,
                n == header_of(raw@).eh_entries,
                entry_off(n as int) <= raw@.len(),
                idx@ == idxs_of(raw@).subrange(0, i as int),
            decreases n - i,
        {
            let off = EXTENT_HEADER_SIZE + i * EXTENT_ENTRY_SIZE;
            let hi = read_u16(raw, off + 8) as u64;
            let lo = read_u32(raw, off + 4) as u64;
            idx.push(ExtentIdx { ei_block: read_u32(raw, off), ei_leaf: hi * 0x1_0000_0000 + lo });
            i += 1;
            assert(idx@ =~= idxs_of(raw@).subrange(0, i as int));
        }
        assert(idx@ =~= idxs_of(raw@));
    }
    let tail_checksum = if is_root {
        None
    } else {
        let tail = extent_tail_offset(header.eh_max)?;
        if tail + 4 > raw.len() {
            return Err(Errno::EIO);
        }
        Some(read_u32(raw, tail))
    };
    Ok((header, idx, leaf, tail_checksum))
}

/// Parses the extent root held in an inode's block map.
pub fn parse_extent_root_bytes(raw: &[u8], block_size: usize) -> (r: SysResult<ExtentBlock>)
    ensures
        match r {
            Ok(b) => extent_parse_error(raw@, true, block_size as int) is None && extent_block_of(b, raw@, 0, true),
            Err(e) => extent_parse_error(raw@, true, block_size as int) == Some(e),
        },
{
    let (header, idx, leaf, tail_checksum) = parse_extent_block_view(raw, true, block_size)?;
    Ok(ExtentBlock { pblk: 0, raw: Vec::new(), header, idx, leaf, tail_checksum })
}

/// Parses the bytes of an extent node read from block `pblk`.
pub fn parse_extent_block_bytes(raw: Vec<u8>, pblk: u64, is_root: bool, block_size: usize) -> (r: SysResult<ExtentBlock>)
    ensures
        match r {
            Ok(b) => extent_parse_error(raw@, is_root, block_size as int) is None && b.pblk == pblk && b.raw@ == raw@
                && extent_parts(raw@, is_root, b.header, b.idx@, b.leaf@, b.tail_checksum),
            Err(e) => extent_parse_error(raw@, is_root, block_size as int) == Some(e),
        },
{
    let (header, idx, leaf, tail_checksum) = parse_extent_block_view(raw.as_slice(), is_root, block_size)?;
    Ok(ExtentBlock { pblk, raw, header, idx, leaf, tail_checksum })
}

/// A 48-bit block number from its 16-bit high and 32-bit low parts.
proof fn lemma_split48(st: u64)
    ensures
        ((st as int / 0x1_0000_0000) % 0x10000) * 0x1_0000_0000 + st as int % 0x1_0000_0000 == st as int % 0x1_0000_0000_0000,
{
    assert(((st / 0x1_0000_0000) % 0x10000) * 0x1_0000_0000 + st % 0x1_0000_0000 == st % 0x1_0000_0000_0000) by (bit_vector);
}

/// Two byte strings that agree on the header bytes hold the same header.
proof fn lemma_header_frame(a: Seq<u8>, b: Seq<u8>)
    requires
        forall|k: int| 0 <= k < EXTENT_HEADER_SIZE ==> #[trigger] a[k] == b[k],
    ensures
        header_of(a) == header_of(b),
{
    assert(a[0] == b[0] && a[1] == b[1] && a[2] == b[2] && a[3] == b[3] && a[4] == b[4] && a[5] == b[5]);
    assert(a[6] == b[6] && a[7] == b[7] && a[8] == b[8] && a[9] == b[9] && a[10] == b[10] && a[11] == b[11]);
}

/// Two byte strings that agree on the bytes of entry `j` hold the same entry there.
proof fn lemma_entry_frame(a: Seq<u8>, b: Seq<u8>, j: int)
    requires
        forall|k: int| entry_off(j) <= k < entry_off(j) + EXTENT_ENTRY_SIZE ==> #[trigger] a[k] == b[k],
    ensures
        leaf_at(a, j) == leaf_at(b, j),
        idx_at(a, j) == idx_at(b, j),
        le16(a, entry_off(j) + 10) == le16(b, entry_off(j) + 10),
{
    let o = entry_off(j);
    assert(a[o] == b[o] && a[o + 1] == b[o + 1] && a[o + 2] == b[o + 2] && a[o + 3] == b[o + 3]);
    assert(a[o + 4] == b[o + 4] && a[o + 5] == b[o + 5] && a[o + 6] == b[o + 6] && a[o + 7] == b[o + 7]);
    assert(a[o + 8] == b[o + 8] && a[o + 9] == b[o + 9] && a[o + 10] == b[o + 10] && a[o + 11] == b[o + 11]);
}

/// Stores leaf entry `e` in slot `i`; the physical block keeps its low 48 bits.
pub fn encode_leaf_at(raw: &mut Vec<u8>, i: usize, e: ExtentLeaf)
    requires
        entry_off(i as int) + EXTENT_ENTRY_SIZE <= old(raw)@.len(),
    ensures
        final(raw)@.len() == old(raw)@.len(),
        leaf_at(final(raw)@, i as int) == (ExtentLeaf { ee_start: (e.ee_start as int % 0x1_0000_0000_0000) as u64, ..e }),
        forall|k: int| 0 <= k < final(raw)@.len() && !(entry_off(i as int) <= k < entry_off(i as int) + EXTENT_ENTRY_SIZE)
            ==> #[trigger] final(raw)@[k] == old(raw)@[k],
{
    let _n = raw.len();
    let off = EXTENT_HEADER_SIZE + i * EXTENT_ENTRY_SIZE;
    let hi = ((e.ee_start / 0x1_0000_0000) % 0x10000) as u16;
    let lo = (e.ee_start % 0x1_0000_0000) as u32;
    let ghost s0 = raw@;
    write_u32(raw, off, e.ee_block);
    let ghost s1 = raw@;
    write_u16(raw, off + 4, e.ee_len_raw);
    let ghost s2 = raw@;
    write_u16(raw, off + 6, hi);
    let ghost s3 = raw@;
    write_u32(raw, off + 8, lo);
    proof {
        let o = off as int;
        crate::bytes::lemma_put32_get(s0, o, e.ee_block as int);
        crate::bytes::lemma_put16_get(s1, o + 4, e.ee_len_raw as int);
        crate::bytes::lemma_put16_get(s2, o + 6, hi as int);
        crate::bytes::lemma_put32_get(s3, o + 8, lo as int);
        let s4 = raw@;
        assert(s4[o] == s1[o] && s4[o + 1] == s1[o + 1] && s4[o + 2] == s1[o + 2] && s4[o + 3] == s1[o + 3]);
        assert(s4[o + 4] == s2[o + 4] && s4[o + 5] == s2[o + 5]);
        assert(s4[o + 6] == s3[o + 6] && s4[o + 7] == s3[o + 7]);
        lemma_split48(e.ee_start);
    }
}

/// Stores index entry `e` in slot `i`; the child block keeps its low 48 bits.
pub fn encode_idx_at(raw: &mut Vec<u8>, i: usize, e: ExtentIdx)
    requires
        entry_off(i as int) + EXTENT_ENTRY_SIZE <= old(raw)@.len(),
    ensures
        final(raw)@.len() == old(raw)@.len(),
        idx_at(final(raw)@, i as int) == (ExtentIdx { ei_leaf: (e.ei_leaf as int % 0x1_0000_0000_0000) as u64, ..e }),
        le16(final(raw)@, entry_off(i as int) + 10) == 0,
        forall|k: int| 0 <= k < final(raw)@.len() && !(entry_off(i as int) <= k < entry_off(i as int) + EXTENT_ENTRY_SIZE)
            ==> #[trigger] final(raw)@[k] == old(raw)@[k],
{
    let _n = raw.len();
    let off = EXTENT_HEADER_SIZE + i * EXTENT_ENTRY_SIZE;
    let lo = (e.ei_leaf % 0x1_0000_0000) as u32;
    let hi = ((e.ei_leaf / 0x1_0000_0000) % 0x10000) as u16;
    let ghost s0 = raw@;
    write_u32(raw, off, e.ei_block);
    let ghost s1 = raw@;
    write_u32(raw, off + 4, lo);
    let ghost s2 = raw@;
    write_u16(raw, off + 8, hi);
    let ghost s3 = raw@;
    write_u16(raw, off + 10, 0);
    proof {
        let o = off as int;
        crate::bytes::lemma_put32_get(s0, o, e.ei_block as int);
        crate::bytes::lemma_put32_get(s1, o + 4, lo as int);
        crate::bytes::lemma_put16_get(s2, o + 8, hi as int);
        crate::bytes::lemma_put16_get(s3, o + 10, 0);
        let s4 = raw@;
        assert(s4[o] == s1[o] && s4[o + 1] == s1[o + 1] && s4[o + 2] == s1[o + 2] && s4[o + 3] == s1[o + 3]);
        assert(s4[o + 4] == s2[o + 4] && s4[o + 5] == s2[o + 5] && s4[o + 6] == s2[o + 6] && s4[o + 7] == s2[o + 7]);
        assert(s4[o + 8] == s3[o + 8] && s4[o + 9] == s3[o + 9]);
        lemma_split48(e.ei_leaf);
    }
}

/// Stores the header and entries of a node into its bytes.
pub fn encode_extent_block(block: &mut ExtentBlock) -> (r: SysResult<()>)
    ensures
        final(block).pblk == old(block).pblk,
        final(block).header == old(block).header,
        final(block).idx@ == old(block).idx@,
        final(block).leaf@ == old(block).leaf@,
        final(block).tail_checksum == old(block).tail_checksum,
        final(block).raw@.len() == old(block).raw@.len(),
        match r {
            Ok(_) => extent_encode_error(*old(block)) is None
                && header_of(final(block).raw@) == old(block).header
                && entries_encoded(final(block).raw@, *old(block), old(block).header.eh_entries as int)
                && final(block).raw@.subrange(entry_off(old(block).header.eh_entries as int), final(block).raw@.len() as int)
                    == old(block).raw@.subrange(entry_off(old(block).header.eh_entries as int), old(block).raw@.len() as int),
            Err(e) => extent_encode_error(*old(block)) == Some(e),
        },
{
    if block.raw.len() < EXTENT_HEADER_SIZE {
        return Err(Errno::EINVAL);
    }
    let h = block.header;
    let ghost r0 = block.raw@;
    write_u16(&mut block.raw, 0, h.eh_magic);
    write_u16(&mut block.raw, 2, h.eh_entries);
    write_u16(&mut block.raw, 4, h.eh_max);
    write_u16(&mut block.raw, 6, h.eh_depth);
    write_u32(&mut block.raw, 8, h.eh_generation);
    assert(block.raw@ == header_encode(r0, h));
    assert(header_of(block.raw@) == h);
    let entries = h.eh_entries as usize;
    if h.eh_entries > h.eh_max {
        return Err(Errno::EINVAL);
    }
    if h.eh_depth == 0 {
        if block.leaf.len() != entries {
            return Err(Errno::EINVAL);
        }
    } else if block.idx.len() != entries {
        return Err(Errno::EINVAL);
    }
    if EXTENT_HEADER_SIZE + entries * EXTENT_ENTRY_SIZE > block.raw.len() {
        return Err(Errno::EIO);
    }
    let ghost r1 = block.raw@;
    let mut i: usize = 0;
    while i < entries
        invariant
            i <= entries,
            entries == h.eh_entries,
            h == block.header,
            h == old(block).header,
            block.pblk == old(block).pblk,
            block.tail_checksum == old(block).tail_checksum,
            block.idx@ == old(block).idx@,
            block.leaf@ == old(block).leaf@,
            h.eh_depth == 0 ==> block.leaf@.len() == entries,
            h.eh_depth != 0 ==> block.idx@.len() == entries,
            entry_off(entries as int) <= block.raw@.len(),
            block.raw@.len() == r1.len(),
            header_of(block.raw@) == h,
            entries_encoded(block.raw@, *old(block), i as int),
            forall|k: int| entry_off(i as int) <= k < block.raw@.len() ==> #[trigger] block.raw@[k] == r1[k],
            r1.subrange(entry_off(entries as int), r1.len() as int) == r0.subrange(entry_off(entries as int), r0.len() as int),
        decreases entries - i,
    {
        let ghost before = block.raw@;
        if h.eh_depth == 0 {
            let e = block.leaf[i];
            encode_leaf_at(&mut block.raw, i, e);
        } else {
            let e = block.idx[i];
            encode_idx_at(&mut block.raw, i, e);
        }
        proof {
            lemma_header_frame(before, block.raw@);
            if h.eh_depth == 0 {
                assert forall|j: int| 0 <= j < i + 1 implies #[trigger] leaf_at(block.raw@, j) == (ExtentLeaf {
                    ee_start: (old(block).leaf@[j].ee_start as int % 0x1_0000_0000_0000) as u64,
                    ..old(block).leaf@[j]
                }) by {
                    if j < i {
                        lemma_entry_frame(before, block.raw@, j);
                    }
                }
            } else {
                assert forall|j: int| 0 <= j < i + 1 implies #[trigger] idx_at(block.raw@, j) == (ExtentIdx {
                    ei_leaf: (old(block).idx@[j].ei_leaf as int % 0x1_0000_0000_0000) as u64,
                    ..old(block).idx@[j]
                }) && le16(block.raw@, entry_off(j) + 10) == 0 by {
                    if j < i {
                        lemma_entry_frame(before, block.raw@, j);
                    }
                }
            }
            assert(entries_encoded(block.raw@, *old(block), i + 1));
        }
        i += 1;
    }
    assert(block.raw@.subrange(entry_off(entries as int), block.raw@.len() as int) =~= r1.subrange(entry_off(entries as int), r1.len() as int));
    Ok(())
}

impl Context {
    /// Parses the extent root held in `inode`'s block map.
    pub fn parse_extent_root(&self, inode: &Ext4Inode) -> (r: SysResult<ExtentBlock>)
        requires
            inode.raw@.len() >= INODE_BLOCK_ARRAY_OFF + INODE_BLOCK_ARRAY_SIZE,
        ensures
            ({
                let root = inode.raw@.subrange(INODE_BLOCK_ARRAY_OFF as int, INODE_BLOCK_ARRAY_OFF + INODE_BLOCK_ARRAY_SIZE);
                match r {
                    Ok(b) => extent_parse_error(root, true, self.block_size as int) is None && extent_block_of(b, root, 0, true),
                    Err(e) => extent_parse_error(root, true, self.block_size as int) == Some(e),
                }
            }),
    {
        let root = inode.i_block();
        parse_extent_root_bytes(root.as_slice(), self.block_size as usize)
    }

    /// The tail checksum of an extent node owned by inode `owner_ino`.
    pub fn extent_block_checksum(&self, owner_ino: u32, owner_generation: u32, raw: &[u8], eh_max: u16) -> (r: SysResult<u32>)
        ensures
            r == extent_checksum_result(*self, owner_ino, owner_generation, raw@, eh_max),
    {
        let tail = extent_tail_offset(eh_max)?;
        if tail > raw.len() {
            return Err(Errno::EIO);
        }
        let mut crc = self.checksum_seed;
        let a = u32_to_le_bytes(owner_ino);
        crc = crc32c_update(crc, a.as_slice());
        let b = u32_to_le_bytes(owner_generation);
        crc = crc32c_update(crc, b.as_slice());
        let head = copy_range(raw, 0, tail);
        Ok(crc32c_update(crc, head.as_slice()))
    }

    /// Checks the tail checksum of a parsed extent node.
    pub fn verify_extent_block_checksum(&self, owner_ino: u32, owner_generation: u32, block: &ExtentBlock) -> (r: SysResult<()>)
        ensures
            match block.tail_checksum {
                None => r == Err::<(), Errno>(Errno::EIO),
                Some(stored) => match extent_checksum_result(*self, owner_ino, owner_generation, block.raw@, block.header.eh_max) {
                    Ok(calc) => r == (if stored != calc { Err::<(), Errno>(Errno::EIO) } else { Ok::<(), Errno>(()) }),
                    Err(e) => r == Err::<(), Errno>(e),
                },
            },
    {
        let stored = match block.tail_checksum {
            Some(s) => s,
            None => return Err(Errno::EIO),
        };
        let calc = self.extent_block_checksum(owner_ino, owner_generation, block.raw.as_slice(), block.header.eh_max)?;
        if stored != calc {
            return Err(Errno::EIO);
        }
        Ok(())
    }

    /// Computes and stores the tail checksum of an extent node.
    pub fn set_extent_block_checksum(&self, owner_ino: u32, owner_generation: u32, block: &mut ExtentBlock) -> (r: SysResult<()>)
        ensures
            final(block).pblk == old(block).pblk,
            final(block).header == old(block).header,
            final(block).idx@ == old(block).idx@,
            final(block).leaf@ == old(block).leaf@,
            match r {
                Ok(_) => tail_off(old(block).header.eh_max) + 4 <= old(block).raw@.len()
                    && (extent_checksum_result(*self, owner_ino, owner_generation, old(block).raw@, old(block).header.eh_max) matches Ok(c)
                    && final(block).raw@ == put32(old(block).raw@, tail_off(old(block).header.eh_max), c as int)
                    && final(block).tail_checksum == Some(c)),
                Err(e) => e == Errno::EIO && tail_off(old(block).header.eh_max) + 4 > old(block).raw@.len()
                    && *final(block) == *old(block),
            },
    {
        let tail = extent_tail_offset(block.header.eh_max)?;
        if tail + 4 > block.raw.len() {
            return Err(Errno::EIO);
        }
        let checksum = self.extent_block_checksum(owner_ino, owner_generation, block.raw.as_slice(), block.header.eh_max)?;
        write_u32(&mut block.raw, tail, checksum);
        block.tail_checksum = Some(checksum);
        Ok(())
    }

    /// Reads, parses and (with metadata checksums) checks the extent node at `pblk`.
    pub fn read_extent_block(&self, owner_ino: u32, owner_generation: u32, pblk: u64) -> (r: SysResult<ExtentBlock>)
        requires
            self.wf(),
        ensures
            match r {
                Ok(b) => extent_block_read(*self, owner_ino, owner_generation, pblk) == Ok::<Seq<u8>, Errno>(b.raw@)
                    && extent_block_of(b, b.raw@, pblk, false),
                Err(e) => extent_block_read(*self, owner_ino, owner_generation, pblk) == Err::<Seq<u8>, Errno>(e),
            },
    {
        let raw = self.read_fs_block(pblk)?;
        let block = parse_extent_block_bytes(raw, pblk, false, self.block_size as usize)?;
        if self.metadata_csum {
            self.verify_extent_block_checksum(owner_ino, owner_generation, &block)?;
        }
        Ok(block)
    }

    /// Encodes an extent node, stores its checksum (with metadata checksums) and writes it.
    #[verifier::spinoff_prover]
    pub fn write_extent_block(&mut self, owner_ino: u32, owner_generation: u32, block: &mut ExtentBlock) -> (r: SysResult<()>)
        requires
            old(self).wf(),
        ensures
            final(self).unchanged_but_dev(*old(self)),
            final(block).pblk == old(block).pblk,
            final(block).header == old(block).header,
            final(block).idx@ == old(block).idx@,
            final(block).leaf@ == old(block).leaf@,
            old(block).raw@.len() != old(self).block_size ==> r == Err::<(), Errno>(Errno::EINVAL),
            r is Err ==> final(self).dev@ == old(self).dev@,
            r is Ok ==> extent_encode_error(*old(block)) is None
                && header_of(final(block).raw@) == old(block).header
                && entries_encoded(final(block).raw@, *old(block), old(block).header.eh_entries as int)
                && blocks_write(*old(self), old(block).pblk as int, final(block).raw@) == Ok::<Seq<u8>, Errno>(final(self).dev@),
            r is Ok && old(self).metadata_csum ==> (final(block).tail_checksum matches Some(c)
                && le32(final(block).raw@, tail_off(old(block).header.eh_max)) == c),
    {
        if block.raw.len() != self.block_size as usize {
            return Err(Errno::EINVAL);
        }
        encode_extent_block(block)?;
        let ghost enc = block.raw@;
        if self.metadata_csum {
            self.set_extent_block_checksum(owner_ino, owner_generation, block)?;
            proof {
                let t = tail_off(old(block).header.eh_max);
                crate::bytes::lemma_put32_get(enc, t, block.tail_checksum->0 as int);
                assert(header_of(block.raw@) == header_of(enc));
                assert(forall|i: int| 0 <= i < old(block).header.eh_entries ==> #[trigger] leaf_at(block.raw@, i) == leaf_at(enc, i));
                assert(forall|i: int| 0 <= i < old(block).header.eh_entries ==> #[trigger] idx_at(block.raw@, i) == idx_at(enc, i)
                    && le16(block.raw@, entry_off(i) + 10) == le16(enc, entry_off(i) + 10));
                assert(entries_encoded(block.raw@, *old(block), old(block).header.eh_entries as int));
            }
        }
        let ghost pre = *self;
        let r = self.write_fs_block(block.pblk, block.raw.as_slice());
        proof {
            if r is Ok {
                assert(pre == *old(self));
                assert(entries_encoded(block.raw@, *old(block), old(block).header.eh_entries as int));
                assert(header_of(block.raw@) == old(block).header);
            }
        }
        r
    }
}

} // verus!
