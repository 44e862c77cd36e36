//! The index blocks of a hashed directory: their entry tables and the search by hash.
use vstd::prelude::*;
use crate::bytes::{le16, le32, get_u16_le, get_u32_le};
use crate::errno::{Errno, SysResult};
use super::dir::{DX_ROOT_INFO_OFF, DX_ENTRIES_OFF, DX_NODE_ENTRIES_OFF, DX_ENTRY_SIZE, DX_HASH_INFO_LEN};
use super::htree_hash::{HTreeHashVersion, hash_version_of};

verus! {

/// An index table: where its entries start, how many fit, how many are used.
#[derive(Clone, Copy)]
pub struct HTreeNode {
    pub entry_offset: usize,
    pub limit: u16,
    pub count: u16,
}

/// The table has at least one entry and lies within `raw`.
pub open spec fn node_ok(raw: Seq<u8>, n: HTreeNode) -> bool {
    &&& 1 <= n.count <= n.limit
    &&& n.entry_offset + n.limit * DX_ENTRY_SIZE <= raw.len()
}

/// The hash stored in entry `i` of table `n`.
pub open spec fn entry_hash(raw: Seq<u8>, n: HTreeNode, i: int) -> int {
    le32(raw, n.entry_offset + i * DX_ENTRY_SIZE)
}

/// The logical block stored in entry `i` of table `n`.
pub open spec fn entry_block(raw: Seq<u8>, n: HTreeNode, i: int) -> int {
    le32(raw, n.entry_offset + i * DX_ENTRY_SIZE + 4)
}

/// An entry of a table lies within the table's room.
proof fn lemma_entry_in_table(n: HTreeNode, i: int)
    requires
        0 <= i < n.count <= n.limit,
    ensures
        n.entry_offset + i * DX_ENTRY_SIZE + DX_ENTRY_SIZE <= n.entry_offset + n.limit * DX_ENTRY_SIZE,
{
    assert(i * 8 + 8 <= n.limit * 8) by (nonlinear_arith)
        requires
            0 <= i < n.limit,
    ;
}

/// Reads the index table at `entry_offset`, whose limit must be `expected_limit`; `EIO` when it
/// does not fit, has another limit, or counts no entry or more than its limit.
pub fn parse_htree_entries(raw: &[u8], entry_offset: usize, expected_limit: usize) -> (r: SysResult<HTreeNode>)
    ensures
        r matches Ok(n) ==> node_ok(raw@, n) && n.entry_offset == entry_offset && n.limit == expected_limit
            && n.limit == le16(raw@, entry_offset as int) && n.count == le16(raw@, entry_offset + 2),
        r is Ok <==> entry_offset + 4 <= raw@.len() && expected_limit <= 0xFFFF
            && le16(raw@, entry_offset as int) == expected_limit
            && 1 <= le16(raw@, entry_offset + 2) <= expected_limit
            && entry_offset + expected_limit * DX_ENTRY_SIZE <= raw@.len(),
{
    let _n = raw.len();
    if entry_offset > usize::MAX - 4 || entry_offset + 4 > raw.len() || expected_limit > 0xFFFF {
        return Err(Errno::EIO);
    }
    let limit = get_u16_le(raw, entry_offset)?;
    let count = get_u16_le(raw, entry_offset + 2)?;
    if limit as usize != expected_limit || count == 0 || count > limit {
        return Err(Errno::EIO);
    }
    let span = match (limit as usize).checked_mul(DX_ENTRY_SIZE) {
        Some(v) => v,
        None => return Err(Errno::EINVAL),
    };
    let end = match entry_offset.checked_add(span) {
        Some(v) => v,
        None => return Err(Errno::EINVAL),
    };
    if end > raw.len() {
        return Err(Errno::EIO);
    }
    Ok(HTreeNode { entry_offset, limit, count })
}

/// Checks the root block of a hashed directory and reads its hash version, its index table and
/// the number of index levels below it: `EIO` for a malformed root, `EOPNOTSUPP` for an unknown
/// hash version or more than one level.
pub fn parse_htree_root(raw: &[u8], block_size: usize, metadata_csum: bool, sb_flags: u32)
    -> (r: SysResult<(HTreeHashVersion, HTreeNode, u8)>)
    ensures
        r matches Ok(t) ==> node_ok(raw@, t.1) && t.2 <= 1 && raw@.len() == block_size && block_size >= DX_ENTRIES_OFF
            && t.1.entry_offset == DX_ENTRIES_OFF
            && hash_version_of(if raw@[DX_ROOT_INFO_OFF + 4] <= 2 && sb_flags & super::htree_hash::EXT4_SUPERBLOCK_FLAGS_UNSIGNED_HASH != 0 {
                raw@[DX_ROOT_INFO_OFF + 4] + 3 } else { raw@[DX_ROOT_INFO_OFF + 4] as int }) == Some(t.0),
{
    if raw.len() != block_size || block_size < DX_ENTRIES_OFF {
        return Err(Errno::EIO);
    }
    if get_u16_le(raw, 4)? as usize != DX_ROOT_INFO_OFF - 12 || get_u16_le(raw, 16)? as usize != block_size - 12
        || get_u32_le(raw, DX_ROOT_INFO_OFF)? != 0 || raw[DX_ROOT_INFO_OFF + 5] != DX_HASH_INFO_LEN
        || raw[DX_ROOT_INFO_OFF + 7] != 0 {
        return Err(Errno::EIO);
    }
    let hash_version = HTreeHashVersion::from_raw(raw[DX_ROOT_INFO_OFF + 4], sb_flags)?;
    let indirect_levels = raw[DX_ROOT_INFO_OFF + 6];
    if indirect_levels > 1 {
        return Err(Errno::EOPNOTSUPP);
    }
    let tail = if metadata_csum { 8usize } else { 0usize };
    if block_size - DX_ENTRIES_OFF < tail {
        return Err(Errno::EIO);
    }
    let expected_limit = (block_size - DX_ENTRIES_OFF - tail) / DX_ENTRY_SIZE;
    let node = parse_htree_entries(raw, DX_ENTRIES_OFF, expected_limit)?;
    Ok((hash_version, node, indirect_levels))
}

/// Checks an index node block of a hashed directory and reads its index table; `EIO` for a
/// malformed node.
pub fn parse_htree_node(raw: &[u8], block_size: usize, metadata_csum: bool) -> (r: SysResult<HTreeNode>)
    ensures
        r matches Ok(n) ==> node_ok(raw@, n) && n.entry_offset == DX_NODE_ENTRIES_OFF,
{
    if raw.len() != block_size || block_size < DX_NODE_ENTRIES_OFF {
        return Err(Errno::EIO);
    }
    if get_u16_le(raw, 4)? as usize != block_size {
        return Err(Errno::EIO);
    }
    let tail = if metadata_csum { 8usize } else { 0usize };
    if block_size - DX_NODE_ENTRIES_OFF < tail {
        return Err(Errno::EIO);
    }
    let expected_limit = (block_size - DX_NODE_ENTRIES_OFF - tail) / DX_ENTRY_SIZE;
    parse_htree_entries(raw, DX_NODE_ENTRIES_OFF, expected_limit)
}

/// Byte offset of entry `index` of a table; `EIO` past its used entries.
pub fn htree_entry_offset(node: HTreeNode, index: usize) -> (r: SysResult<usize>)
    ensures
        match r {
            Ok(off) => index < node.count && off == node.entry_offset + index * DX_ENTRY_SIZE,
            Err(_) => index >= node.count || node.entry_offset + index * DX_ENTRY_SIZE > usize::MAX,
        },
{
    if index >= node.count as usize {
        return Err(Errno::EIO);
    }
    let span = match index.checked_mul(DX_ENTRY_SIZE) {
        Some(v) => v,
        None => return Err(Errno::EINVAL),
    };
    match node.entry_offset.checked_add(span) {
        Some(v) => Ok(v),
        None => Err(Errno::EINVAL),
    }
}

/// The hash stored in entry `index` of a table.
pub fn htree_entry_hash(raw: &[u8], node: HTreeNode, index: usize) -> (r: SysResult<u32>)
    requires
        node_ok(raw@, node),
    ensures
        r is Ok <==> index < node.count,
        r matches Ok(h) ==> h == entry_hash(raw@, node, index as int),
{
    let _n = raw.len();
    if index < node.count as usize {
        proof {
            lemma_entry_in_table(node, index as int);
            assert(node.entry_offset + index * DX_ENTRY_SIZE + DX_ENTRY_SIZE <= raw@.len());
        }
    }
    let off = htree_entry_offset(node, index)?;
    get_u32_le(raw, off)
}

/// The logical block stored in entry `index` of a table.
pub fn htree_entry_block(raw: &[u8], node: HTreeNode, index: usize) -> (r: SysResult<u32>)
    requires
        node_ok(raw@, node),
    ensures
        r is Ok <==> index < node.count,
        r matches Ok(b) ==> b == entry_block(raw@, node, index as int),
{
    let _n = raw.len();
    if index < node.count as usize {
        proof {
            lemma_entry_in_table(node, index as int);
            assert(node.entry_offset + index * DX_ENTRY_SIZE + DX_ENTRY_SIZE <= raw@.len());
        }
    }
    let off = htree_entry_offset(node, index)?;
    get_u32_le(raw, off + 4)
}

/// Whether entry `index` of a table holds `hash`, its collision bit aside.
pub fn htree_hash_matches(raw: &[u8], node: HTreeNode, index: usize, hash: u32) -> (r: bool)
    requires
        node_ok(raw@, node),
    ensures
        r == (index < node.count && (entry_hash(raw@, node, index as int) as u32) & !1u32 == hash),
{
    match htree_entry_hash(raw, node, index) {
        Ok(h) => h & !1u32 == hash,
        Err(_) => false,
    }
}

/// The entry of a table under which `hash` falls, found by bisection over the entries from the
/// second on: one whose hash is at most `hash` (or the first entry) and whose successor's hash
/// is above it (or which is the last).
pub fn htree_find_position(raw: &[u8], node: HTreeNode, hash: u32) -> (r: usize)
    requires
        node_ok(raw@, node),
    ensures
        r < node.count,
        r == 0 || entry_hash(raw@, node, r as int) <= hash,
        r + 1 == node.count || entry_hash(raw@, node, r + 1) > hash,
{
    let mut low: usize = 1;
    let mut high: usize = node.count as usize;
    while low < high
        invariant
            1 <= low <= high <= node.count,
            node_ok(raw@, node),
            low == 1 || entry_hash(raw@, node, low - 1) <= hash,
            high == node.count || entry_hash(raw@, node, high as int) > hash,
        decreases high - low,
    {
        let middle = low + (high - low) / 2;
        let h = match htree_entry_hash(raw, node, middle) {
            Ok(v) => v,
            Err(_) => u32::MAX,
        };
        if h > hash {
            high = middle;
        } else {
            low = middle + 1;
        }
    }
    low - 1
}

} // verus!
