//! Directory edits on disk: a new directory's first block, adding, removing and finding
//! names, and re-pointing "..".
use vstd::prelude::*;
use crate::errno::{Errno, SysResult};
use crate::bytes::{le16, le32, bytes_eq, get_u16_le, get_u8, get_slice, put_u32_le};
use crate::vfs::DirResult;
use super::ctx::Context;
use super::defs::{Ext4Inode, DirBlock, DirEntry2, Ext4DirEntryFileType, has_bits, flags_contain, spec_file_type_code,
    INODE_FLAG_EXTENTS, INODE_FLAG_INLINE_DATA, INODE_FLAG_INDEX, INODE_BLOCK_ARRAY_OFF, INODE_BLOCK_ARRAY_SIZE,
    EXT4_MAX_NAME_LEN, DIR_ENTRY_HEADER_SIZE, DIR_ENTRY_TAIL_SIZE};
use super::dir::{dir_tail_offset, tail_at, dir_block_read, dir_offsets, entries_at, entry_matches, layout_ok, rec_off, placed, dirent_wf,
    laid_out_offsets};
use super::dirent::{min_len, new_model, names, models, dirent_min_len, writable_dir_bytes, new_dir_entry,
    insert_dirent_into_block, remove_dirent_from_block, rec_off_m, layout_ok_m, model_writable, remove_overflows,
    lemma_remove_at_layout};
use super::io::{blocks_write, block_read};
use super::inode::{inode_location_result, inode_stored};
use crate::bytes::splice;
use super::data_map::{to_dir_result, ensure_dir_readable, dir_readable_error, check_result};
use super::tree::root_bytes;
use super::extent_map::starts_bounded;
use super::htree_index::{node_ok, parse_htree_root, parse_htree_node, htree_find_position, htree_entry_block,
    htree_hash_matches};
use super::htree_hash::htree_hash;

verus! {

/// The entry that the bytes at `off` of a directory block describe.
pub open spec fn entry_model_at(raw: Seq<u8>, off: int) -> super::defs::DirEntryModel {
    super::defs::DirEntryModel {
        inode: le32(raw, off) as u32,
        rec_len: le16(raw, off + 4) as u16,
        name_len: raw[off + 6],
        file_type: raw[off + 7],
        name: raw.subrange(off + 8, off + 8 + raw[off + 6]),
        entry_off: off as u16,
    }
}

/// The root block of a hashed directory holds a live ".." entry right after the "." entry,
/// whose record length is nonzero.
pub open spec fn dotdot_after_dot(raw: Seq<u8>) -> bool {
    let dot_len = le16(raw, 4);
    &&& 0 < dot_len
    &&& dot_len + DIR_ENTRY_HEADER_SIZE + 2 <= raw.len()
    &&& raw[dot_len + 6] == 2
    &&& raw[dot_len + 8] == 0x2Eu8 && raw[dot_len + 9] == 0x2Eu8
}

/// The root block of a hashed directory had its ".." entry right after the "." entry, and that
/// entry's inode number now reads `parent`.
pub open spec fn dotdot_repointed(before: Context, after: Context, ino: u32, inode: Ext4Inode, parent: u32) -> bool {
    match logical_block_read(before, ino, inode, 0) {
        Ok(p) => dotdot_after_dot(p.1) && match block_read(after, p.0 as int) {
            Ok(b) => le32(b, le16(p.1, 4)) == parent,
            Err(_) => false,
        },
        Err(_) => false,
    }
}

/// The number of blocks a directory of `size` bytes spans, cut to 32 bits.
pub open spec fn dir_block_count(size: u64, block_size: u32) -> u32 {
    ((size as int / block_size as int + if size as int % block_size as int != 0 { 1int } else { 0int }) % 0x1_0000_0000) as u32
}

/// Why a directory's entries cannot be changed in place, if they cannot: inline data and
/// block maps are `EOPNOTSUPP`, a name of no or more than 255 bytes `EINVAL`.
pub open spec fn dirent_edit_error(i: Ext4Inode, name: Seq<u8>) -> Option<Errno> {
    if has_bits(i.i_flags, INODE_FLAG_INLINE_DATA) {
        Some(Errno::EOPNOTSUPP)
    } else if !has_bits(i.i_flags, INODE_FLAG_EXTENTS) {
        Some(Errno::EOPNOTSUPP)
    } else if name.len() == 0 || name.len() > EXT4_MAX_NAME_LEN {
        Some(Errno::EINVAL)
    } else {
        None
    }
}

/// The block of a directory holds, at entry `k`, a live entry named `name` for `ino` of type `ft`.
pub open spec fn block_names(raw: Seq<u8>, offs: Seq<int>, k: int, name: Seq<u8>, ino: u32, ft: u8) -> bool {
    &&& 0 <= k < offs.len()
    &&& entry_model_at(raw, offs[k]).inode == ino
    &&& ino != 0
    &&& entry_model_at(raw, offs[k]).name == name
    &&& entry_model_at(raw, offs[k]).file_type == ft
}


/// The live entries among the first `j` entries of a directory block, as (inode, name, type).
pub open spec fn block_live(raw: Seq<u8>, offs: Seq<int>, j: int) -> Seq<(u32, Seq<u8>, u8)>
    decreases j,
{
    if j <= 0 {
        Seq::empty()
    } else {
        let m = entry_model_at(raw, offs[j - 1]);
        let prev = block_live(raw, offs, j - 1);
        if m.inode != 0 { prev.push((m.inode, m.name, m.file_type)) } else { prev }
    }
}

/// Glues a block's entries onto what the later blocks give.
pub open spec fn prepend_list(a: Seq<(u32, Seq<u8>, u8)>, rest: Result<Seq<(u32, Seq<u8>, u8)>, Errno>)
    -> Result<Seq<(u32, Seq<u8>, u8)>, Errno> {
    match rest {
        Ok(b) => Ok(a + b),
        Err(e) => Err(e),
    }
}

/// The live entries of the directory's blocks from logical block `lblk` on, in order, or the
/// first error; holes are skipped.
pub open spec fn listing_from(c: Context, ino: u32, generation: u32, root: Seq<u8>, total: u32, lblk: int)
    -> Result<Seq<(u32, Seq<u8>, u8)>, Errno>
    decreases total - lblk,
{
    if lblk >= total || lblk < 0 {
        Ok(Seq::empty())
    } else {
        let h = super::extent::header_of(root);
        match super::lookup::lookup_spec(c, ino, generation, h.eh_depth, super::extent::idxs_of(root),
            super::extent::leaves_of(root), lblk as u32, true) {
            Err(e) => Err(e),
            Ok(None) => listing_from(c, ino, generation, root, total, lblk + 1),
            Ok(Some(pblk)) => match dir_block_read(c, ino, generation, pblk) {
                Err(e) => Err(e),
                Ok(raw) => match dir_offsets(raw, c.metadata_csum) {
                    Err(e) => Err(e),
                    Ok(offs) => prepend_list(block_live(raw, offs, offs.len() as int),
                        listing_from(c, ino, generation, root, total, lblk + 1)),
                },
            },
        }
    }
}

/// What listing a directory gives: its live entries in block order, or the error.
pub open spec fn listing(c: Context, inode: Ext4Inode) -> Result<Seq<(u32, Seq<u8>, u8)>, Errno> {
    let root = root_bytes(inode);
    match super::extent::extent_parse_error(root, true, c.block_size as int) {
        Some(e) => if dir_block_count(inode.i_size, c.block_size) == 0 && !has_bits(inode.i_flags, INODE_FLAG_EXTENTS) {
            Ok(Seq::empty())
        } else {
            Err(e)
        },
        None => listing_from(c, inode.ino, inode.i_generation, root, dir_block_count(inode.i_size, c.block_size), 0),
    }
}

/// A listing result describes the entry `t`.
pub open spec fn result_is(r: DirResult, t: (u32, Seq<u8>, u8)) -> bool {
    &&& r.ino == t.0
    &&& r.name@ == t.1
    &&& r.file_type == super::data_map::file_type_of_code(t.2)
}

/// The inode of the first entry named `name`, if any.
pub open spec fn find_name(l: Seq<(u32, Seq<u8>, u8)>, name: Seq<u8>) -> Option<u32>
    decreases l.len(),
{
    if l.len() == 0 {
        None
    } else if l[0].1 == name {
        Some(l[0].0)
    } else {
        find_name(l.drop_first(), name)
    }
}

/// Every entry is "." or "..".
pub open spec fn only_dots(l: Seq<(u32, Seq<u8>, u8)>) -> bool {
    forall|k: int| 0 <= k < l.len() ==> (#[trigger] l[k]).1 == seq![0x2Eu8] || l[k].1 == seq![0x2Eu8, 0x2Eu8]
}

/// The directory block at `pblk`, as read, holds a live entry named `name` for `ino` of type `ft`.
pub open spec fn dir_block_names(c: Context, dir_ino: u32, generation: u32, pblk: u64, name: Seq<u8>, ino: u32, ft: u8) -> bool {
    &&& dir_block_read(c, dir_ino, generation, pblk) matches Ok(raw)
    &&& dir_offsets(raw, c.metadata_csum) matches Ok(offs)
    &&& exists|k: int| block_names(raw, offs, k, name, ino, ft)
}

/// The entries of the directory block at `pblk`, as read, each as (inode, name, type); `None`
/// when the block does not read or parse.
pub open spec fn block_entries(c: Context, dir_ino: u32, generation: u32, pblk: u64) -> Option<Seq<(u32, Seq<u8>, u8)>> {
    match dir_block_read(c, dir_ino, generation, pblk) {
        Ok(raw) => match dir_offsets(raw, c.metadata_csum) {
            Ok(offs) => Some(Seq::new(offs.len(), |k: int| (entry_model_at(raw, offs[k]).inode,
                entry_model_at(raw, offs[k]).name, entry_model_at(raw, offs[k]).file_type))),
            Err(_) => None,
        },
        Err(_) => None,
    }
}

/// The entries of the directory block at `pblk`, as read; `None` when the block does not
/// read or parse.
pub open spec fn block_models(c: Context, dir_ino: u32, generation: u32, pblk: u64) -> Option<Seq<super::defs::DirEntryModel>> {
    match dir_block_read(c, dir_ino, generation, pblk) {
        Ok(raw) => match dir_offsets(raw, c.metadata_csum) {
            Ok(offs) => Some(Seq::new(offs.len(), |k: int| entry_model_at(raw, offs[k]))),
            Err(_) => None,
        },
        Err(_) => None,
    }
}

/// The bytes a directory block's entries fill: the block, less its checksum tail when
/// checksums are kept.
pub open spec fn dir_entry_room(c: Context) -> int {
    if c.metadata_csum { c.block_size - DIR_ENTRY_TAIL_SIZE } else { c.block_size as int }
}

/// Removing the first live entry named `name` from the directory block at `pblk` can be
/// written back: the block's entries fill its room, the first entry so named merges into its
/// neighbour within 16 bits, and the device takes writes.
pub open spec fn removal_fits(c: Context, dir_ino: u32, generation: u32, pblk: u64, name: Seq<u8>) -> bool {
    &&& block_models(c, dir_ino, generation, pblk) matches Some(ms)
    &&& layout_ok_m(ms, dir_entry_room(c))
    &&& forall|idx: int| #![trigger ms[idx]] 0 <= idx < ms.len() && names(ms[idx], name)
        && (forall|k: int| 0 <= k < idx ==> !names(#[trigger] ms[k], name)) ==> !remove_overflows(ms, idx)
    &&& !c.dev.spec_read_only()
}

/// Laid-out offsets of entries are those of their views.
proof fn lemma_rec_off_models(es: Seq<DirEntry2>, k: int)
    requires
        0 <= k <= es.len(),
    ensures
        rec_off(es, k) == rec_off_m(models(es), k),
    decreases k,
{
    if k > 0 {
        lemma_rec_off_models(es, k - 1);
        assert(models(es)[k - 1] == es[k - 1]@);
    }
}

/// Entries lay out well exactly when their views do.
proof fn lemma_layout_models(es: Seq<DirEntry2>, limit: int)
    requires
        layout_ok_m(models(es), limit),
    ensures
        layout_ok(es, limit),
{
    assert forall|k: int| 0 <= k < es.len() implies super::dir::entry_writable(#[trigger] es[k]) && rec_off(es, k) <= u16::MAX
        && rec_off(es, k + 1) <= limit by {
        lemma_rec_off_models(es, k);
        lemma_rec_off_models(es, k + 1);
        assert(models(es)[k] == es[k]@);
        assert(model_writable(models(es)[k]));
    }
    lemma_rec_off_models(es, es.len() as int);
}

/// A list of entries with entry `idx` taken out: removed, its record given to a neighbour, or
/// left as an unused record when it is first and a live entry follows.
pub open spec fn entries_without(before: Seq<(u32, Seq<u8>, u8)>, idx: int) -> Seq<(u32, Seq<u8>, u8)> {
    if idx > 0 || (before.len() > 1 && before[1].0 == 0) {
        before.remove(idx)
    } else {
        before.update(0, (0u32, Seq::<u8>::empty(), 0u8))
    }
}

/// From `pre` to `post`, the first live entry named `name` of the directory block at `pblk`
/// was taken out of it.
pub open spec fn entry_removed(pre: Context, post: Context, dir_ino: u32, generation: u32, pblk: u64, name: Seq<u8>) -> bool {
    &&& block_entries(pre, dir_ino, generation, pblk) matches Some(before)
    &&& block_entries(post, dir_ino, generation, pblk) matches Some(after)
    &&& exists|idx: int| #![trigger before[idx]] 0 <= idx < before.len() && before[idx].0 != 0 && before[idx].1 == name
        && (forall|k: int| 0 <= k < idx ==> !((#[trigger] before[k]).0 != 0 && before[k].1 == name))
        && after == entries_without(before, idx)
}

/// The directory block at `pblk`, as read, holds a live entry named `name`.
pub open spec fn block_holds_name(c: Context, dir_ino: u32, generation: u32, pblk: u64, name: Seq<u8>) -> bool {
    &&& dir_block_read(c, dir_ino, generation, pblk) matches Ok(raw)
    &&& dir_offsets(raw, c.metadata_csum) matches Ok(offs)
    &&& exists|k: int| 0 <= k < offs.len() && #[trigger] entry_model_at(raw, offs[k]).inode != 0
        && entry_model_at(raw, offs[k]).name == name
}

/// Where a search of a directory's blocks from logical block `lblk` on for a live entry named
/// `name` ends: at the first block holding one, at none, or at the error of parsing the tree,
/// walking it or reading a block; holes are skipped.
pub open spec fn name_block_scan(c: Context, ino: u32, generation: u32, root: Seq<u8>, total: u32, lblk: int,
    name: Seq<u8>) -> Result<Option<u64>, Errno>
    decreases total - lblk,
{
    if lblk < 0 || lblk >= total {
        Ok(None)
    } else {
        match super::extent::extent_parse_error(root, true, c.block_size as int) {
            Some(e) => Err(e),
            None => match super::lookup::lookup_spec(c, ino, generation, super::extent::header_of(root).eh_depth,
                super::extent::idxs_of(root), super::extent::leaves_of(root), lblk as u32, false) {
                Err(e) => Err(e),
                Ok(None) => name_block_scan(c, ino, generation, root, total, lblk + 1, name),
                Ok(Some(p)) => match dir_block_read(c, ino, generation, p) {
                    Err(e) => Err(e),
                    Ok(_) => if block_holds_name(c, ino, generation, p, name) {
                        Ok(Some(p))
                    } else {
                        name_block_scan(c, ino, generation, root, total, lblk + 1, name)
                    },
                },
            },
        }
    }
}

/// What reading logical block `lblk` of directory `ino` gives: the block it maps to and its
/// bytes; `EIO` for a hole, or the error of parsing the tree, walking it or reading the block.
pub open spec fn logical_block_read(c: Context, ino: u32, inode: Ext4Inode, lblk: u32) -> Result<(u64, Seq<u8>), Errno> {
    let root = root_bytes(inode);
    match super::extent::extent_parse_error(root, true, c.block_size as int) {
        Some(e) => Err(e),
        None => match super::lookup::lookup_spec(c, ino, inode.i_generation, super::extent::header_of(root).eh_depth,
            super::extent::idxs_of(root), super::extent::leaves_of(root), lblk, false) {
            Err(e) => Err(e),
            Ok(None) => Err(Errno::EIO),
            Ok(Some(p)) => match super::io::block_read(c, p as int) {
                Ok(raw) => Ok((p, raw)),
                Err(e) => Err(e),
            },
        },
    }
}

/// After adding an entry `name` for `child` (nonzero) to directory `dir_ino`, from `pre` to
/// `post`, a block of the directory holds it: when the directory grew, the new block, as the
/// device now holds it; otherwise the block it was put into, as written just before the
/// directory's record was stored, which the device still shows unless that record lives in
/// the same block.
pub open spec fn name_entered(pre: Context, post: Context, before: Ext4Inode, after: Ext4Inode, dir_ino: u32,
    name: Seq<u8>, child: u32, ft: u8) -> bool {
    child != 0 ==> {
        &&& after.i_size != before.i_size ==> exists|pblk: u64|
            dir_block_names(post, dir_ino, before.i_generation, pblk, name, child, ft)
        &&& after.i_size == before.i_size ==> exists|pblk: u64, mid: Context|
            #![trigger dir_block_names(mid, dir_ino, before.i_generation, pblk, name, child, ft)]
            dir_block_names(mid, dir_ino, before.i_generation, pblk, name, child, ft)
            && mid.unchanged_but_dev(pre)
            && inode_stored(mid, post, before.ino, after.raw@)
            && ((inode_location_result(mid, before.ino) matches Ok(loc) && loc.0 != pblk)
                ==> dir_block_names(post, dir_ino, before.i_generation, pblk, name, child, ft))
    }
}

/// Storing a block's worth of bytes at block `q` leaves what reading another directory
/// block `p` gives as it was.
pub proof fn lemma_dir_block_read_frame(c: Context, c2: Context, q: int, data: Seq<u8>, p: u64, ino: u32, generation: u32)
    requires
        c.wf(),
        c2.unchanged_but_dev(c),
        block_read(c, q) is Ok,
        data.len() == c.block_size,
        c2.dev@ == super::io::dev_store(c.dev@, q * c.block_size, data),
        p != q,
        q >= 0,
    ensures
        dir_block_read(c2, ino, generation, p) == dir_block_read(c, ino, generation, p),
{
    let bs = c.block_size as int;
    let pi = p as int;
    if block_read(c, pi) is Ok {
        assert(pi * bs + bs <= q * bs || q * bs + bs <= pi * bs) by (nonlinear_arith)
            requires
                pi != q,
                bs > 0,
                pi >= 0,
                q >= 0,
        {
            if pi < q {
                assert(pi + 1 <= q);
                assert((pi + 1) * bs <= q * bs);
            } else {
                assert(q + 1 <= pi);
                assert((q + 1) * bs <= pi * bs);
            }
        }
        let d1 = c.dev@;
        let d2 = c2.dev@;
        let a = d1.subrange(0, q * bs);
        let z = d1.subrange(q * bs + bs, d1.len() as int);
        assert(q * bs >= 0) by (nonlinear_arith)
            requires
                q >= 0,
                bs > 0,
        {
        }
        assert(d2 == a + data + z);
        assert(a.len() == q * bs);
        assert(d2.len() == d1.len());
        assert forall|i: int| pi * bs <= i < pi * bs + bs implies #[trigger] d2[i] == d1[i] by {
            if i < q * bs {
                assert(d2[i] == (a + data)[i]);
                assert(d2[i] == a[i]);
            } else {
                assert(i >= q * bs + bs);
                assert(d2[i] == z[i - q * bs - bs]);
            }
        }
        assert(d2.subrange(pi * bs, pi * bs + bs) =~= d1.subrange(pi * bs, pi * bs + bs));
    }
    assert(block_read(c2, pi) == block_read(c, pi));
}

/// A name put into the room of a directory block's entry, the block then written, is read
/// back from that block as a live entry for the child: inserting a name into a block and
/// writing it loses neither.
pub proof fn law_inserted_name_read_back(c: Context, dir_ino: u32, generation: u32, pblk: u64,
    before: Seq<DirEntry2>, after: Seq<DirEntry2>, written: Seq<DirEntry2>, raw: Seq<u8>,
    idx: int, child: u32, name: Seq<u8>, ft: u8, need: int)
    requires
        0 <= idx < before.len(),
        child != 0,
        models(after) == super::dirent::insert_at(models(before), idx, child, name, ft, need),
        dir_block_read(c, dir_ino, generation, pblk) == Ok::<Seq<u8>, Errno>(raw),
        dir_offsets(raw, c.metadata_csum) == Ok::<Seq<int>, Errno>(laid_out_offsets(after)),
        entries_at(written, raw, laid_out_offsets(after)),
        forall|k: int| 0 <= k < after.len() ==> #[trigger] written[k] == placed(after[k], rec_off(after, k)),
    ensures
        dir_block_names(c, dir_ino, generation, pblk, name, child, ft),
{
    let ms = models(before);
    let k = if ms[idx].inode == 0 { idx } else { idx + 1 };
    let offs = laid_out_offsets(after);
    assert(models(after).len() == after.len());
    assert(0 <= k < models(after).len());
    assert(models(after)[k] == new_model(child, name, ft, models(after)[k].rec_len));
    assert(models(after)[k] == after[k]@);
    assert(entry_matches(written[k], raw, offs[k]));
    assert(written[k] == placed(after[k], rec_off(after, k)));
    assert(block_names(raw, offs, k, name, child, ft));
    assert(exists|j: int| block_names(raw, offs, j, name, child, ft));
    assert(dir_block_read(c, dir_ino, generation, pblk) matches Ok(r2) && r2 == raw);
    assert(dir_offsets(raw, c.metadata_csum) matches Ok(o2) && o2 == offs);
}

/// The number of blocks of a directory.
pub fn dir_total_blocks(size: u64, block_size: u32) -> (r: u32)
    requires
        block_size > 0,
    ensures
        r == dir_block_count(size, block_size),
{
    let bs = block_size as u64;
    proof {
        assert(size % bs != 0 ==> size / bs < u64::MAX) by (nonlinear_arith)
            requires
                bs > 0,
        {
            if size % bs != 0 && bs == 1 {
                assert(size % 1 == 0);
            }
        }
    }
    let n = size / bs + if size % bs != 0 { 1 } else { 0 };
    (n % 0x1_0000_0000) as u32
}

/// Entries named properly keep doing so when a name is put into one of them.
proof fn lemma_insert_at_wf(ms: Seq<super::defs::DirEntryModel>, idx: int, child: u32, name: Seq<u8>, ft: u8, need: int)
    requires
        0 <= idx < ms.len(),
        name.len() <= 255,
        forall|k: int| 0 <= k < ms.len() ==> (#[trigger] ms[k]).name.len() == ms[k].name_len,
    ensures
        forall|k: int| 0 <= k < super::dirent::insert_at(ms, idx, child, name, ft, need).len() ==>
            (#[trigger] super::dirent::insert_at(ms, idx, child, name, ft, need)[k]).name.len()
            == super::dirent::insert_at(ms, idx, child, name, ft, need)[k].name_len,
{
}

/// Entries named properly keep doing so when one of them is removed.
proof fn lemma_remove_at_wf(ms: Seq<super::defs::DirEntryModel>, idx: int)
    requires
        0 <= idx < ms.len(),
        forall|k: int| 0 <= k < ms.len() ==> (#[trigger] ms[k]).name.len() == ms[k].name_len,
    ensures
        forall|k: int| 0 <= k < super::dirent::remove_at(ms, idx).len() ==>
            (#[trigger] super::dirent::remove_at(ms, idx)[k]).name.len() == super::dirent::remove_at(ms, idx)[k].name_len,
{
}

/// Entries whose models are named properly are themselves.
proof fn lemma_models_wf(es: Seq<DirEntry2>)
    ensures
        (forall|k: int| 0 <= k < es.len() ==> dirent_wf(#[trigger] es[k]))
            <==> (forall|k: int| 0 <= k < models(es).len() ==> (#[trigger] models(es)[k]).name.len() == models(es)[k].name_len),
{
    assert forall|k: int| 0 <= k < es.len() implies models(es)[k] == es[k]@ by {}
    if forall|k: int| 0 <= k < models(es).len() ==> (#[trigger] models(es)[k]).name.len() == models(es)[k].name_len {
        assert forall|k: int| 0 <= k < es.len() implies dirent_wf(#[trigger] es[k]) by {
            assert(models(es)[k] == es[k]@);
        }
    }
}

/// A copy of a directory entry.
pub fn copy_dir_entry(e: &DirEntry2) -> (r: DirEntry2)
    ensures
        r@ == e@,
{
    DirEntry2 {
        inode: e.inode,
        rec_len: e.rec_len,
        name_len: e.name_len,
        file_type: e.file_type,
        name: vstd::slice::slice_to_vec(e.name.as_slice()),
        entry_off: e.entry_off,
    }
}

/// A copy of a directory block.
pub fn copy_dir_block(b: &DirBlock) -> (r: DirBlock)
    ensures
        r.pblk == b.pblk,
        r.raw@ == b.raw@,
        models(r.entries@) == models(b.entries@),
        forall|k: int| 0 <= k < r.entries@.len() ==> #[trigger] r.entries@[k]@ == b.entries@[k]@,
{
    let mut entries: Vec<DirEntry2> = Vec::new();
    let mut i: usize = 0;
    while i < b.entries.len()
        invariant
            i <= b.entries@.len(),
            entries@.len() == i,
            forall|k: int| 0 <= k < i ==> #[trigger] entries@[k]@ == b.entries@[k]@,
        decreases b.entries@.len() - i,
    {
        entries.push(copy_dir_entry(&b.entries[i]));
        i += 1;
    }
    proof {
        assert(models(entries@) =~= models(b.entries@));
    }
    DirBlock { pblk: b.pblk, raw: vstd::slice::slice_to_vec(b.raw.as_slice()), entries }
}

/// Leaves with 48-bit starts stay clear of overflow.
proof fn lemma_starts48_bounded(s: Seq<super::defs::ExtentLeaf>)
    requires
        super::tree::starts48(s),
    ensures
        starts_bounded(s),
{
    assert forall|i: int| 0 <= i < s.len() implies #[trigger] s[i].ee_start + super::extent_map::ext_len(s[i].ee_len_raw) <= u64::MAX by {
        assert(s[i].ee_start < 0x1_0000_0000_0000);
    }
}

impl Context {
    /// Writes the first block of a new directory at `pblk`: "." for the directory itself and
    /// ".." for its parent, the latter spanning the rest of the entry region.
    #[verifier::rlimit(100)]
    #[verifier::spinoff_prover]
    pub fn init_dir_block(&mut self, pblk: u64, dir_ino: u32, dir_generation: u32, parent_ino: u32) -> (r: SysResult<()>)
        requires
            old(self).wf(),
        ensures
            final(self).unchanged_but_dev(*old(self)),
            r is Err ==> final(self).dev@ == old(self).dev@,
            r is Ok ==> exists|raw: Seq<u8>| #![trigger blocks_write(*old(self), pblk as int, raw)]
                blocks_write(*old(self), pblk as int, raw) == Ok::<Seq<u8>, Errno>(final(self).dev@)
                && raw.len() == old(self).block_size,
            ({
                let bs = old(self).block_size as int;
                let limit = if old(self).metadata_csum { bs - DIR_ENTRY_TAIL_SIZE } else { bs };
                &&& r is Ok <==> limit <= 0xFFFF
                    && blocks_write(*old(self), pblk as int, Seq::new(bs as nat, |i: int| 0u8)) is Ok
                &&& r is Ok ==> (dir_block_read(*final(self), dir_ino, dir_generation, pblk) matches Ok(raw)
                    && dir_offsets(raw, old(self).metadata_csum) == Ok::<Seq<int>, Errno>(seq![0int, 12int])
                    && entry_model_at(raw, 0) == super::defs::DirEntryModel { entry_off: 0,
                        ..new_model(dir_ino, seq![0x2Eu8], spec_file_type_code(Ext4DirEntryFileType::Directory), 12) }
                    && entry_model_at(raw, 12) == super::defs::DirEntryModel { entry_off: 12,
                        ..new_model(parent_ino, seq![0x2Eu8, 0x2Eu8], spec_file_type_code(Ext4DirEntryFileType::Directory),
                        (limit - 12) as u16) })
            }),
    {
        let limit = writable_dir_bytes(self.block_size as usize, self.metadata_csum)?;
        let dot_len = dirent_min_len(1)?;
        if limit > 0xFFFF {
            return Err(Errno::EINVAL);
        }
        let dotdot_len = match (limit as u16).checked_sub(dot_len) {
            Some(v) => v,
            None => return Err(Errno::EINVAL),
        };
        if dotdot_len < DIR_ENTRY_HEADER_SIZE as u16 {
            return Err(Errno::EINVAL);
        }
        let dot_name: Vec<u8> = vec![0x2Eu8];
        let dotdot_name: Vec<u8> = vec![0x2Eu8, 0x2Eu8];
        let dot = new_dir_entry(dir_ino, dot_name.as_slice(), Ext4DirEntryFileType::Directory, dot_len)?;
        let dotdot = new_dir_entry(parent_ino, dotdot_name.as_slice(), Ext4DirEntryFileType::Directory, dotdot_len)?;
        let mut entries: Vec<DirEntry2> = Vec::new();
        entries.push(dot);
        entries.push(dotdot);
        let mut block = DirBlock { pblk, raw: Vec::new(), entries };
        let ghost es = block.entries@;
        proof {
            assert(dot_name@ =~= seq![0x2Eu8]);
            assert(dotdot_name@ =~= seq![0x2Eu8, 0x2Eu8]);
            assert(rec_off(es, 0) == 0);
            assert(rec_off(es, 1) == 12);
            assert(rec_off(es, 2) == limit);
            assert(layout_ok(es, limit as int));
        }
        self.write_dir_block(dir_ino, dir_generation, &mut block)?;
        proof {
            let raw = block.raw@;
            assert(blocks_write(*old(self), pblk as int, raw) == Ok::<Seq<u8>, Errno>(self.dev@));
            let offs = laid_out_offsets(es);
            assert(offs =~= seq![0int, 12int]);
            assert(entry_matches(block.entries@[0], raw, 0));
            assert(entry_matches(block.entries@[1], raw, 12));
            lemma_entry_model(block.entries@[0], raw, 0);
            lemma_entry_model(block.entries@[1], raw, 12);
            assert(entry_model_at(raw, 0) =~= super::defs::DirEntryModel { entry_off: 0,
                ..new_model(dir_ino, seq![0x2Eu8], spec_file_type_code(Ext4DirEntryFileType::Directory), 12) });
            assert(entry_model_at(raw, 12) =~= super::defs::DirEntryModel { entry_off: 12,
                ..new_model(parent_ino, seq![0x2Eu8, 0x2Eu8], spec_file_type_code(Ext4DirEntryFileType::Directory),
                dotdot_len) });
        }
        Ok(())
    }

    /// The block of the directory's logical block `lblk` and its bytes; `EIO` for a hole.
    pub fn read_directory_logical_raw(&self, dir_ino: u32, dir_inode: &Ext4Inode, lblk: u32) -> (r: SysResult<(u64, Vec<u8>)>)
        requires
            self.wf(),
            dir_inode.raw@.len() >= INODE_BLOCK_ARRAY_OFF + INODE_BLOCK_ARRAY_SIZE,
        ensures
            match logical_block_read(*self, dir_ino, *dir_inode, lblk) {
                Ok(p) => r matches Ok(q) && q.0 == p.0 && q.1@ == p.1,
                Err(e) => r == Err::<(u64, Vec<u8>), Errno>(e),
            },
    {
        let root = self.parse_extent_root(dir_inode)?;
        proof {
            let rb = root_bytes(*dir_inode);
            super::tree::lemma_leaves_of_starts48(rb);
            lemma_starts48_bounded(root.leaf@);
            if root.header.eh_depth == 0 {
                assert(root.leaf@ == super::extent::leaves_of(rb));
            } else {
                assert(root.idx@ == super::extent::idxs_of(rb));
            }
            assert(root.header == super::extent::header_of(rb));
            assert(super::lookup::lookup_spec(*self, dir_ino, dir_inode.i_generation, root.header.eh_depth, root.idx@,
                root.leaf@, lblk, false) == super::lookup::lookup_spec(*self, dir_ino, dir_inode.i_generation,
                super::extent::header_of(rb).eh_depth, super::extent::idxs_of(rb), super::extent::leaves_of(rb), lblk, false));
        }
        let pblk = match super::lookup::lookup_lblk_mut(self, root, dir_ino, dir_inode.i_generation, lblk)? {
            Some(p) => p,
            None => return Err(Errno::EIO),
        };
        let raw = self.read_fs_block(pblk)?;
        Ok((pblk, raw))
    }

    /// Puts an entry `name` for `child_ino` into the directory block at `pblk` when it has
    /// room, then stores the directory's record (putting the block back as it was when that
    /// fails); `Ok(false)`, with nothing written, when the block is full.
    #[verifier::rlimit(80)]
    #[verifier::spinoff_prover]
    fn insert_in_block(&mut self, dir_ino: u32, dir_inode: &mut Ext4Inode, pblk: u64, name: &[u8], child_ino: u32,
        file_type: Ext4DirEntryFileType) -> (r: SysResult<bool>)
        requires
            old(self).wf(),
            old(dir_inode).raw@.len() >= INODE_BLOCK_ARRAY_OFF + INODE_BLOCK_ARRAY_SIZE,
            0 < name@.len() <= EXT4_MAX_NAME_LEN,
        ensures
            final(self).unchanged_but_dev(*old(self)),
            r matches Ok(false) ==> *final(self) == *old(self) && *final(dir_inode) == *old(dir_inode),
            r matches Ok(true) ==> final(dir_inode).i_size == old(dir_inode).i_size
                && name_entered(*old(self), *final(self), *old(dir_inode), *final(dir_inode), dir_ino, name@, child_ino,
                spec_file_type_code(file_type)),
            final(dir_inode).ino == old(dir_inode).ino,
            final(dir_inode).i_mode == old(dir_inode).i_mode,
            final(dir_inode).i_flags == old(dir_inode).i_flags,
            final(dir_inode).i_generation == old(dir_inode).i_generation,
            final(dir_inode).i_links_count == old(dir_inode).i_links_count,
            final(dir_inode).raw@.len() == old(dir_inode).raw@.len(),
            r is Err ==> *final(dir_inode) == (Ext4Inode { raw: final(dir_inode).raw, ..*old(dir_inode) })
                && super::inode::block_array_kept(final(dir_inode).raw@, old(dir_inode).raw@),
    {
        let generation = dir_inode.i_generation;
        let mut dir_block = self.read_dir_block(dir_ino, generation, pblk)?;
        let old_block = copy_dir_block(&dir_block);
        let ghost ms = models(dir_block.entries@);
        proof {
            lemma_models_wf(dir_block.entries@);
        }
        let placed_in = insert_dirent_into_block(&mut dir_block, name, child_ino, file_type)?;
        if !placed_in {
            return Ok(false);
        }
        proof {
            let need = min_len(name@.len() as int);
            let idx = choose|idx: int| #![trigger ms[idx]] 0 <= idx < ms.len() && super::dirent::slot_ok(ms[idx], need)
                && (forall|k: int| 0 <= k < idx ==> !super::dirent::slot_ok(#[trigger] ms[k], need))
                && models(dir_block.entries@) == super::dirent::insert_at(ms, idx, child_ino, name@,
                    spec_file_type_code(file_type), need)
                && name@.len() <= EXT4_MAX_NAME_LEN;
            lemma_insert_at_wf(ms, idx, child_ino, name@, spec_file_type_code(file_type), need);
            lemma_models_wf(dir_block.entries@);
            lemma_models_wf(old_block.entries@);
        }
        let ghost written_entries = dir_block.entries@;
        self.write_dir_block(dir_ino, generation, &mut dir_block)?;
        let ghost mid = *self;
        proof {
            if child_ino != 0 {
                let need = min_len(name@.len() as int);
                let idx = choose|idx: int| #![trigger ms[idx]] 0 <= idx < ms.len() && super::dirent::slot_ok(ms[idx], need)
                    && (forall|k: int| 0 <= k < idx ==> !super::dirent::slot_ok(#[trigger] ms[k], need))
                    && models(written_entries) == super::dirent::insert_at(ms, idx, child_ino, name@,
                        spec_file_type_code(file_type), need)
                    && name@.len() <= EXT4_MAX_NAME_LEN;
                law_inserted_name_read_back(mid, dir_ino, generation, pblk, old_block.entries@, written_entries,
                    dir_block.entries@, dir_block.raw@, idx, child_ino, name@, spec_file_type_code(file_type), need);
            }
        }
        match self.write_inode(dir_inode) {
            Ok(()) => {
                proof {
                    if child_ino != 0 {
                        let loc = inode_location_result(mid, old(dir_inode).ino)->Ok_0;
                        let b = block_read(mid, loc.0 as int)->Ok_0;
                        if loc.0 != pblk {
                            lemma_dir_block_read_frame(mid, *self, loc.0 as int, splice(b, loc.1 as int, dir_inode.raw@),
                                pblk, dir_ino, generation);
                        }
                        assert(dir_block_names(mid, dir_ino, old(dir_inode).i_generation, pblk, name@, child_ino,
                            spec_file_type_code(file_type)));
                    }
                }
                return Ok(true);
            },
            Err(e) => {
                let mut restore = old_block;
                let _ = self.write_dir_block(dir_ino, generation, &mut restore);
                return Err(e);
            },
        }
    }

    /// Adds an entry `name` for `child_ino` to a hashed directory: the name's hash picks,
    /// through the root's index (and one level of index nodes below it), the leaf block that
    /// takes it. A full leaf is not split: `EOPNOTSUPP`.
    fn insert_indexed_dirent(&mut self, dir_ino: u32, dir_inode: &mut Ext4Inode, name: &[u8], child_ino: u32,
        file_type: Ext4DirEntryFileType) -> (r: SysResult<()>)
        requires
            old(self).wf(),
            old(dir_inode).raw@.len() >= INODE_BLOCK_ARRAY_OFF + INODE_BLOCK_ARRAY_SIZE,
            0 < name@.len() <= EXT4_MAX_NAME_LEN,
        ensures
            final(self).unchanged_but_dev(*old(self)),
            r is Ok ==> final(dir_inode).i_size == old(dir_inode).i_size
                && name_entered(*old(self), *final(self), *old(dir_inode), *final(dir_inode), dir_ino, name@, child_ino,
                spec_file_type_code(file_type)),
            final(dir_inode).ino == old(dir_inode).ino,
            final(dir_inode).i_mode == old(dir_inode).i_mode,
            final(dir_inode).i_flags == old(dir_inode).i_flags,
            final(dir_inode).i_generation == old(dir_inode).i_generation,
            final(dir_inode).i_links_count == old(dir_inode).i_links_count,
            final(dir_inode).raw@.len() == old(dir_inode).raw@.len(),
            r is Err ==> *final(dir_inode) == (Ext4Inode { raw: final(dir_inode).raw, ..*old(dir_inode) })
                && super::inode::block_array_kept(final(dir_inode).raw@, old(dir_inode).raw@),
    {
        let (_, root_raw) = self.read_directory_logical_raw(dir_ino, dir_inode, 0)?;
        let (hash_version, root, indirect_levels) = parse_htree_root(root_raw.as_slice(), self.block_size as usize,
            self.metadata_csum, self.flags)?;
        let hash = htree_hash(name, &self.hash_seed, hash_version)?;
        let root_position = htree_find_position(root_raw.as_slice(), root, hash);
        let leaf_lblk = if indirect_levels == 0 {
            htree_entry_block(root_raw.as_slice(), root, root_position)?
        } else {
            let node_lblk = htree_entry_block(root_raw.as_slice(), root, root_position)?;
            let (_, node_raw) = self.read_directory_logical_raw(dir_ino, dir_inode, node_lblk)?;
            let node = parse_htree_node(node_raw.as_slice(), self.block_size as usize, self.metadata_csum)?;
            let node_position = htree_find_position(node_raw.as_slice(), node, hash);
            htree_entry_block(node_raw.as_slice(), node, node_position)?
        };
        let (leaf_pblk, _) = self.read_directory_logical_raw(dir_ino, dir_inode, leaf_lblk)?;
        if self.insert_in_block(dir_ino, dir_inode, leaf_pblk, name, child_ino, file_type)? {
            return Ok(());
        }
        Err(Errno::EOPNOTSUPP)
    }

    /// Adds an entry `name` for `child_ino` to a directory: into the first block with room,
    /// else into a new block appended to the directory (which grows by one block and has
    /// its record written). A hashed-index directory takes it in the leaf its index picks.
    pub fn insert_dirent(&mut self, dir_ino: u32, dir_inode: &mut Ext4Inode, name: &[u8], child_ino: u32,
        file_type: Ext4DirEntryFileType) -> (r: SysResult<()>)
        requires
            old(self).wf(),
            old(dir_inode).raw@.len() >= INODE_BLOCK_ARRAY_OFF + INODE_BLOCK_ARRAY_SIZE,
        ensures
            final(self).unchanged_but_dev(*old(self)),
            dirent_edit_error(*old(dir_inode), name@) matches Some(e) ==> r == Err::<(), Errno>(e)
                && final(self).dev@ == old(self).dev@ && *final(dir_inode) == *old(dir_inode),
            r is Ok ==> dirent_edit_error(*old(dir_inode), name@) is None,
            r is Ok ==> final(dir_inode).i_size == old(dir_inode).i_size
                || final(dir_inode).i_size == old(dir_inode).i_size + old(self).block_size,
            r is Ok ==> name_entered(*old(self), *final(self), *old(dir_inode), *final(dir_inode), dir_ino, name@, child_ino,
                spec_file_type_code(file_type)),
            final(dir_inode).ino == old(dir_inode).ino,
            final(dir_inode).i_mode == old(dir_inode).i_mode,
            final(dir_inode).i_flags == old(dir_inode).i_flags,
            final(dir_inode).i_generation == old(dir_inode).i_generation,
            final(dir_inode).i_links_count == old(dir_inode).i_links_count,
            final(dir_inode).raw@.len() == old(dir_inode).raw@.len(),
            r is Err ==> *final(dir_inode) == (Ext4Inode { raw: final(dir_inode).raw, ..*old(dir_inode) })
                && super::inode::block_array_kept(final(dir_inode).raw@, old(dir_inode).raw@),
    {
        if flags_contain(dir_inode.i_flags, INODE_FLAG_INLINE_DATA) {
            return Err(Errno::EOPNOTSUPP);
        }
        if !flags_contain(dir_inode.i_flags, INODE_FLAG_EXTENTS) {
            return Err(Errno::EOPNOTSUPP);
        }
        if name.len() == 0 || name.len() > EXT4_MAX_NAME_LEN {
            return Err(Errno::EINVAL);
        }
        if flags_contain(dir_inode.i_flags, INODE_FLAG_INDEX) {
            return self.insert_indexed_dirent(dir_ino, dir_inode, name, child_ino, file_type);
        }
        let total_blocks = dir_total_blocks(dir_inode.i_size, self.block_size);
        let generation = dir_inode.i_generation;
        let mut lblk: u32 = 0;
        while lblk < total_blocks
            invariant
                self.wf(),
                self.unchanged_but_dev(*old(self)),
                self.dev@ == old(self).dev@,
                *self == *old(self),
                *dir_inode == *old(dir_inode),
                dirent_edit_error(*old(dir_inode), name@) is None,
                generation == dir_inode.i_generation,
                name@.len() <= EXT4_MAX_NAME_LEN,
                dir_inode.raw@.len() >= INODE_BLOCK_ARRAY_OFF + INODE_BLOCK_ARRAY_SIZE,
            decreases total_blocks - lblk,
        {
            let root = self.parse_extent_root(dir_inode)?;
            proof {
                super::tree::lemma_leaves_of_starts48(root_bytes(*dir_inode));
                lemma_starts48_bounded(root.leaf@);
            }
            let pblk = match super::lookup::lookup_lblk_mut(self, root, dir_ino, generation, lblk)? {
                Some(p) => p,
                None => {
                    lblk += 1;
                    continue;
                },
            };
            if self.insert_in_block(dir_ino, dir_inode, pblk, name, child_ino, file_type)? {
                return Ok(());
            }
            lblk += 1;
        }
        let original = dir_inode.duplicate();
        let new_pblk = self.alloc_block()?;
        let result = self.append_dirent_block(dir_ino, dir_inode, total_blocks, new_pblk, name, child_ino, file_type);
        match result {
            Ok(()) => {
                proof {
                    if child_ino != 0 {
                        assert(dir_block_names(*self, dir_ino, old(dir_inode).i_generation, new_pblk, name@, child_ino,
                            spec_file_type_code(file_type)));
                    }
                }
                Ok(())
            },
            Err(e) => {
                let mut restore = original.duplicate();
                let _ = self.write_inode(&mut restore);
                let _ = self.free_block(new_pblk);
                *dir_inode = original;
                Err(e)
            },
        }
    }

    /// Grows a directory by block `new_pblk` at logical block `lblk`, holding a single entry
    /// for `child_ino` named `name`, and writes the directory's record.
    fn append_dirent_block(&mut self, dir_ino: u32, dir_inode: &mut Ext4Inode, lblk: u32, new_pblk: u64, name: &[u8],
        child_ino: u32, file_type: Ext4DirEntryFileType) -> (r: SysResult<()>)
        requires
            old(self).wf(),
            old(dir_inode).raw@.len() >= INODE_BLOCK_ARRAY_OFF + INODE_BLOCK_ARRAY_SIZE,
        ensures
            final(self).unchanged_but_dev(*old(self)),
            r is Ok ==> final(dir_inode).i_size == old(dir_inode).i_size + old(self).block_size,
            r is Ok && child_ino != 0 ==> dir_block_names(*final(self), dir_ino, old(dir_inode).i_generation, new_pblk,
                name@, child_ino, spec_file_type_code(file_type)),
            final(dir_inode).ino == old(dir_inode).ino,
            final(dir_inode).i_mode == old(dir_inode).i_mode,
            final(dir_inode).i_flags == old(dir_inode).i_flags,
            final(dir_inode).i_generation == old(dir_inode).i_generation,
            final(dir_inode).i_links_count == old(dir_inode).i_links_count,
            final(dir_inode).raw@.len() == old(dir_inode).raw@.len(),
    {
        let generation = dir_inode.i_generation;
        self.insert_extent_1blk(dir_ino, dir_inode, lblk, new_pblk)?;
        let grown = match dir_inode.i_size.checked_add(self.block_size as u64) {
            Some(v) => v,
            None => return Err(Errno::EINVAL),
        };
        dir_inode.i_size = grown;
        self.write_inode(dir_inode)?;
        let limit = writable_dir_bytes(self.block_size as usize, self.metadata_csum)?;
        if limit > 0xFFFF {
            return Err(Errno::EINVAL);
        }
        let entry = new_dir_entry(child_ino, name, file_type, limit as u16)?;
        let mut entries: Vec<DirEntry2> = Vec::new();
        entries.push(entry);
        let mut block = DirBlock { pblk: new_pblk, raw: Vec::new(), entries };
        let ghost es = block.entries@;
        self.write_dir_block(dir_ino, generation, &mut block)?;
        proof {
            if child_ino != 0 {
                let raw = block.raw@;
                let offs = laid_out_offsets(es);
                assert(rec_off(es, 0) == 0);
                assert(entry_matches(block.entries@[0], raw, offs[0]));
                assert(block.entries@[0] == placed(es[0], 0));
                assert(es[0]@ == new_model(child_ino, name@, spec_file_type_code(file_type), limit as u16));
                assert(block_names(raw, offs, 0, name@, child_ino, spec_file_type_code(file_type)));
                assert(exists|j: int| block_names(raw, offs, j, name@, child_ino, spec_file_type_code(file_type)));
                assert(dir_block_read(*self, dir_ino, generation, new_pblk) matches Ok(r2) && r2 == raw);
                assert(dir_offsets(raw, self.metadata_csum) matches Ok(o2) && o2 == offs);
            }
        }
        Ok(())
    }
}


/// The entries of a parsed block match the bytes it was read from.
proof fn lemma_entry_model(e: DirEntry2, raw: Seq<u8>, off: int)
    requires
        entry_matches(e, raw, off),
    ensures
        entry_model_at(raw, off).inode == e.inode,
        entry_model_at(raw, off).name == e.name@,
        entry_model_at(raw, off).file_type == e.file_type,
{
}

/// The live entries of a directory, in block order: each block of the directory that is
/// mapped is read and its entries with a nonzero inode are listed.
#[verifier::rlimit(60)]
pub fn read_dir_results_from_disk(context: &Context, inode: &Ext4Inode) -> (r: SysResult<Vec<DirResult>>)
    requires
        context.wf(),
        inode.raw@.len() >= INODE_BLOCK_ARRAY_OFF + INODE_BLOCK_ARRAY_SIZE,
    ensures
        match listing(*context, *inode) {
            Ok(l) => r matches Ok(v) && v@.len() == l.len() && forall|k: int| 0 <= k < l.len() ==> #[trigger] result_is(v@[k], l[k]),
            Err(e) => r == Err::<Vec<DirResult>, Errno>(e),
        },
{
    let total = dir_total_blocks(inode.i_size, context.block_size);
    let ino = inode.ino;
    let generation = inode.i_generation;
    let mut results: Vec<DirResult> = Vec::new();
    if flags_contain(inode.i_flags, INODE_FLAG_EXTENTS) || total != 0 {
        let _root = context.parse_extent_root(inode)?;
    }
    if total == 0 {
        return Ok(results);
    }
    let ghost root = root_bytes(*inode);
    let ghost full = listing_from(*context, ino, generation, root, total, 0);
    let ghost mut acc: Seq<(u32, Seq<u8>, u8)> = Seq::empty();
    proof {
        assert(prepend_list(acc, full) == full) by {
            if full is Ok {
                assert(acc + full->Ok_0 =~= full->Ok_0);
            }
        }
    }
    let mut lblk: u32 = 0;
    while lblk < total
        invariant
            context.wf(),
            inode.raw@.len() >= INODE_BLOCK_ARRAY_OFF + INODE_BLOCK_ARRAY_SIZE,
            root == root_bytes(*inode),
            total == dir_block_count(inode.i_size, context.block_size),
            ino == inode.ino,
            generation == inode.i_generation,
            super::extent::extent_parse_error(root, true, context.block_size as int) is None,
            full == listing_from(*context, ino, generation, root, total, 0),
            full == prepend_list(acc, listing_from(*context, ino, generation, root, total, lblk as int)),
            results@.len() == acc.len(),
            forall|k: int| 0 <= k < acc.len() ==> #[trigger] result_is(results@[k], acc[k]),
        decreases total - lblk,
    {
        let root_block = context.parse_extent_root(inode)?;
        proof {
            super::tree::lemma_leaves_of_starts48(root);
            lemma_starts48_bounded(root_block.leaf@);
            if root_block.header.eh_depth == 0 {
                assert(root_block.leaf@ == super::extent::leaves_of(root));
            } else {
                assert(root_block.idx@ == super::extent::idxs_of(root));
            }
        }
        proof {
            assert(root_block.header == super::extent::header_of(root));
            assert(super::lookup::lookup_spec(*context, ino, generation, root_block.header.eh_depth, root_block.idx@,
                root_block.leaf@, lblk, true) == super::lookup::lookup_spec(*context, ino, generation,
                super::extent::header_of(root).eh_depth, super::extent::idxs_of(root), super::extent::leaves_of(root), lblk, true));
        }
        let found = super::lookup::lookup_lblk(context, root_block, ino, generation, lblk)?;
        let pblk = match found {
            Some(p) => p,
            None => {
                lblk += 1;
                continue;
            },
        };
        let dir_block = context.read_dir_block(ino, generation, pblk)?;
        let ghost raw = dir_block.raw@;
        let ghost offs = dir_offsets(raw, context.metadata_csum)->Ok_0;
        let ghost acc0 = acc;
        append_live_results(&dir_block, &mut results, Ghost(offs), Ghost(acc0));
        proof {
            acc = acc0 + block_live(raw, offs, offs.len() as int);
        }
        proof {
            let rest = listing_from(*context, ino, generation, root, total, lblk + 1);
            assert(listing_from(*context, ino, generation, root, total, lblk as int)
                == prepend_list(block_live(raw, offs, offs.len() as int), rest));
            if rest is Ok {
                assert(acc0 + (block_live(raw, offs, offs.len() as int) + rest->Ok_0)
                    =~= (acc0 + block_live(raw, offs, offs.len() as int)) + rest->Ok_0);
            }
        }
        lblk += 1;
    }
    proof {
        assert(acc + Seq::<(u32, Seq<u8>, u8)>::empty() =~= acc);
    }
    Ok(results)
}


/// Appends a listing result for each live entry of a parsed block.
fn append_live_results(dir_block: &DirBlock, results: &mut Vec<DirResult>, Ghost(offs): Ghost<Seq<int>>,
    Ghost(acc0): Ghost<Seq<(u32, Seq<u8>, u8)>>)
    requires
        entries_at(dir_block.entries@, dir_block.raw@, offs),
        forall|k: int| 0 <= k < dir_block.entries@.len() ==> dirent_wf(#[trigger] dir_block.entries@[k]),
        old(results)@.len() == acc0.len(),
        forall|k: int| 0 <= k < acc0.len() ==> #[trigger] result_is(old(results)@[k], acc0[k]),
    ensures
        final(results)@.len() == (acc0 + block_live(dir_block.raw@, offs, offs.len() as int)).len(),
        forall|k: int| 0 <= k < (acc0 + block_live(dir_block.raw@, offs, offs.len() as int)).len() ==>
            #[trigger] result_is(final(results)@[k], (acc0 + block_live(dir_block.raw@, offs, offs.len() as int))[k]),
{
    let ghost raw = dir_block.raw@;
    let ghost mut acc = acc0;
    proof {
        assert(acc0 + block_live(raw, offs, 0) =~= acc0);
    }
    let mut j: usize = 0;
    while j < dir_block.entries.len()
        invariant
            j <= dir_block.entries@.len(),
            raw == dir_block.raw@,
            dir_block.entries@.len() == offs.len(),
            entries_at(dir_block.entries@, raw, offs),
            forall|k: int| 0 <= k < dir_block.entries@.len() ==> dirent_wf(#[trigger] dir_block.entries@[k]),
            acc == acc0 + block_live(raw, offs, j as int),
            results@.len() == acc.len(),
            forall|k: int| 0 <= k < acc.len() ==> #[trigger] result_is(results@[k], acc[k]),
        decreases dir_block.entries@.len() - j,
    {
        let entry = &dir_block.entries[j];
        proof {
            assert(entry_matches(dir_block.entries@[j as int], raw, offs[j as int]));
            lemma_entry_model(dir_block.entries@[j as int], raw, offs[j as int]);
            assert(dirent_wf(dir_block.entries@[j as int]));
        }
        if entry.inode != 0 {
            let res = to_dir_result(entry);
            results.push(res);
            proof {
                let m = entry_model_at(raw, offs[j as int]);
                let t = (m.inode, m.name, m.file_type);
                acc = acc.push(t);
                assert(block_live(raw, offs, j + 1) == block_live(raw, offs, j as int).push(t));
                assert(acc =~= acc0 + block_live(raw, offs, j + 1));
                assert forall|k: int| 0 <= k < acc.len() implies #[trigger] result_is(results@[k], acc[k]) by {
                    if k < acc.len() - 1 {
                        assert(results@[k] == old_result(results@, k));
                    }
                }
            }
        } else {
            proof {
                assert(block_live(raw, offs, j + 1) == block_live(raw, offs, j as int));
            }
        }
        j += 1;
    }
}

/// The element of a sequence (a name for triggering).
spec fn old_result(s: Seq<DirResult>, k: int) -> DirResult {
    s[k]
}


/// The inode of the directory's first live entry named `needle`; `ENOENT` when there is none.
pub fn lookup_name_in_dir(context: &Context, inode: &Ext4Inode, needle: &[u8]) -> (r: SysResult<u32>)
    requires
        context.wf(),
        inode.raw@.len() >= INODE_BLOCK_ARRAY_OFF + INODE_BLOCK_ARRAY_SIZE,
    ensures
        match listing(*context, *inode) {
            Ok(l) => match find_name(l, needle@) {
                Some(i) => r == Ok::<u32, Errno>(i),
                None => r == Err::<u32, Errno>(Errno::ENOENT),
            },
            Err(e) => r == Err::<u32, Errno>(e),
        },
{
    let results = read_dir_results_from_disk(context, inode)?;
    let ghost l = listing(*context, *inode)->Ok_0;
    let mut i: usize = 0;
    proof {
        assert(l.skip(0) =~= l);
    }
    while i < results.len()
        invariant
            i <= results@.len(),
            results@.len() == l.len(),
            listing(*context, *inode) == Ok::<Seq<(u32, Seq<u8>, u8)>, Errno>(l),
            forall|k: int| 0 <= k < l.len() ==> #[trigger] result_is(results@[k], l[k]),
            find_name(l, needle@) == find_name(l.skip(i as int), needle@),
        decreases results@.len() - i,
    {
        proof {
            assert(result_is(results@[i as int], l[i as int]));
            assert(l.skip(i as int)[0] == l[i as int]);
            assert(l.skip(i as int).drop_first() =~= l.skip(i + 1));
        }
        if bytes_eq(results[i].name.as_slice(), needle) {
            proof {
                assert(l[i as int].1 == needle@);
                assert(find_name(l.skip(i as int), needle@) == Some(l[i as int].0));
            }
            return Ok(results[i].ino);
        }
        i += 1;
    }
    proof {
        assert(l.skip(i as int) =~= Seq::<(u32, Seq<u8>, u8)>::empty());
    }
    Err(Errno::ENOENT)
}

/// Whether a directory holds nothing but "." and "..".
pub fn is_dir_empty(context: &Context, inode: &Ext4Inode) -> (r: SysResult<bool>)
    requires
        context.wf(),
        inode.raw@.len() >= INODE_BLOCK_ARRAY_OFF + INODE_BLOCK_ARRAY_SIZE,
    ensures
        match dir_readable_error(*inode) {
            Some(e) => r == Err::<bool, Errno>(e),
            None => match listing(*context, *inode) {
                Ok(l) => r == Ok::<bool, Errno>(only_dots(l)),
                Err(e) => r == Err::<bool, Errno>(e),
            },
        },
{
    ensure_dir_readable(inode)?;
    let results = read_dir_results_from_disk(context, inode)?;
    let ghost l = listing(*context, *inode)->Ok_0;
    let dot: Vec<u8> = vec![0x2Eu8];
    let dotdot: Vec<u8> = vec![0x2Eu8, 0x2Eu8];
    proof {
        assert(dot@ =~= seq![0x2Eu8]);
        assert(dotdot@ =~= seq![0x2Eu8, 0x2Eu8]);
    }
    let mut i: usize = 0;
    while i < results.len()
        invariant
            i <= results@.len(),
            results@.len() == l.len(),
            listing(*context, *inode) == Ok::<Seq<(u32, Seq<u8>, u8)>, Errno>(l),
            dir_readable_error(*inode) is None,
            dot@ == seq![0x2Eu8],
            dotdot@ == seq![0x2Eu8, 0x2Eu8],
            forall|k: int| 0 <= k < l.len() ==> #[trigger] result_is(results@[k], l[k]),
            forall|k: int| 0 <= k < i ==> (#[trigger] l[k]).1 == seq![0x2Eu8] || l[k].1 == seq![0x2Eu8, 0x2Eu8],
        decreases results@.len() - i,
    {
        proof {
            assert(result_is(results@[i as int], l[i as int]));
        }
        let name = results[i].name.as_slice();
        if !bytes_eq(name, dot.as_slice()) && !bytes_eq(name, dotdot.as_slice()) {
            proof {
                assert(l[i as int].1 != seq![0x2Eu8] && l[i as int].1 != seq![0x2Eu8, 0x2Eu8]);
                assert(!only_dots(l));
            }
            return Ok(false);
        }
        i += 1;
    }
    Ok(true)
}

impl Context {
    /// Removes the first live entry named `name` from a directory, giving its inode and type;
    /// `ENOENT` when no block holds it. A hashed-index directory is searched through its index.
    #[verifier::rlimit(80)]
    pub fn remove_dirent(&mut self, dir_ino: u32, dir_inode: &mut Ext4Inode, name: &[u8]) -> (r: SysResult<(u32, u8)>)
        requires
            old(self).wf(),
            old(dir_inode).raw@.len() >= INODE_BLOCK_ARRAY_OFF + INODE_BLOCK_ARRAY_SIZE,
        ensures
            final(self).unchanged_but_dev(*old(self)),
            *final(dir_inode) == *old(dir_inode),
            dirent_edit_error(*old(dir_inode), name@) matches Some(e) ==> r == Err::<(u32, u8), Errno>(e)
                && final(self).dev@ == old(self).dev@,
            r matches Ok(p) ==> dirent_edit_error(*old(dir_inode), name@) is None && p.0 != 0
                && exists|pblk: u64| #![trigger dir_block_names(*old(self), dir_ino, old(dir_inode).i_generation, pblk, name@, p.0, p.1)]
                    dir_block_names(*old(self), dir_ino, old(dir_inode).i_generation, pblk, name@, p.0, p.1)
                    && entry_removed(*old(self), *final(self), dir_ino, old(dir_inode).i_generation, pblk, name@),
            dirent_edit_error(*old(dir_inode), name@) is None && !has_bits(old(dir_inode).i_flags, INODE_FLAG_INDEX)
                ==> match name_block_scan(*old(self), dir_ino,
                old(dir_inode).i_generation, root_bytes(*old(dir_inode)),
                dir_block_count(old(dir_inode).i_size, old(self).block_size), 0, name@) {
                Err(e) => r == Err::<(u32, u8), Errno>(e) && final(self).dev@ == old(self).dev@,
                Ok(None) => r == Err::<(u32, u8), Errno>(Errno::ENOENT) && final(self).dev@ == old(self).dev@,
                Ok(Some(pblk)) => {
                    &&& r matches Ok(p) ==> dir_block_names(*old(self), dir_ino, old(dir_inode).i_generation, pblk,
                        name@, p.0, p.1) && entry_removed(*old(self), *final(self), dir_ino, old(dir_inode).i_generation, pblk, name@)
                    &&& removal_fits(*old(self), dir_ino, old(dir_inode).i_generation, pblk, name@) ==> r is Ok
                },
            },
    {
        if flags_contain(dir_inode.i_flags, INODE_FLAG_INLINE_DATA) {
            return Err(Errno::EOPNOTSUPP);
        }
        if !flags_contain(dir_inode.i_flags, INODE_FLAG_EXTENTS) {
            return Err(Errno::EOPNOTSUPP);
        }
        if name.len() == 0 || name.len() > EXT4_MAX_NAME_LEN {
            return Err(Errno::EINVAL);
        }
        if flags_contain(dir_inode.i_flags, INODE_FLAG_INDEX) {
            return self.remove_indexed_dirent(dir_ino, dir_inode, name);
        }
        let total_blocks = dir_total_blocks(dir_inode.i_size, self.block_size);
        let generation = dir_inode.i_generation;
        let mut lblk: u32 = 0;
        while lblk < total_blocks
            invariant
                self.wf(),
                self.unchanged_but_dev(*old(self)),
                self.dev@ == old(self).dev@,
                *self == *old(self),
                *dir_inode == *old(dir_inode),
                dirent_edit_error(*old(dir_inode), name@) is None,
                !has_bits(old(dir_inode).i_flags, INODE_FLAG_INDEX),
                generation == dir_inode.i_generation,
                dir_inode.raw@.len() >= INODE_BLOCK_ARRAY_OFF + INODE_BLOCK_ARRAY_SIZE,
                total_blocks == dir_block_count(dir_inode.i_size, self.block_size),
                name_block_scan(*old(self), dir_ino, generation, root_bytes(*old(dir_inode)), total_blocks, 0, name@)
                    == name_block_scan(*old(self), dir_ino, generation, root_bytes(*old(dir_inode)), total_blocks, lblk as int, name@),
            decreases total_blocks - lblk,
        {
            let root = self.parse_extent_root(dir_inode)?;
            proof {
                let rb = root_bytes(*dir_inode);
                super::tree::lemma_leaves_of_starts48(rb);
                lemma_starts48_bounded(root.leaf@);
                if root.header.eh_depth == 0 {
                    assert(root.leaf@ == super::extent::leaves_of(rb));
                } else {
                    assert(root.idx@ == super::extent::idxs_of(rb));
                }
                assert(root.header == super::extent::header_of(rb));
                assert(super::lookup::lookup_spec(*self, dir_ino, generation, root.header.eh_depth, root.idx@,
                    root.leaf@, lblk, false) == super::lookup::lookup_spec(*self, dir_ino, generation,
                    super::extent::header_of(rb).eh_depth, super::extent::idxs_of(rb), super::extent::leaves_of(rb), lblk, false));
            }
            let pblk = match super::lookup::lookup_lblk_mut(self, root, dir_ino, generation, lblk)? {
                Some(p) => p,
                None => {
                    lblk += 1;
                    continue;
                },
            };
            match self.remove_in_block(dir_ino, generation, pblk, name)? {
                Some(removed) => return Ok(removed),
                None => {
                    lblk += 1;
                    continue;
                },
            }
        }
        Err(Errno::ENOENT)
    }

    /// Removes the first live entry named `name` from the leaf at logical block `leaf_lblk` of a
    /// hashed directory, if it holds one.
    fn try_remove_indexed_leaf(&mut self, dir_ino: u32, dir_inode: &Ext4Inode, leaf_lblk: u32, name: &[u8])
        -> (r: SysResult<Option<(u32, u8)>>)
        requires
            old(self).wf(),
            dir_inode.raw@.len() >= INODE_BLOCK_ARRAY_OFF + INODE_BLOCK_ARRAY_SIZE,
        ensures
            final(self).unchanged_but_dev(*old(self)),
            r matches Ok(None) ==> *final(self) == *old(self),
            r matches Ok(Some(p)) ==> p.0 != 0 && exists|pblk: u64|
                #![trigger dir_block_names(*old(self), dir_ino, dir_inode.i_generation, pblk, name@, p.0, p.1)]
                dir_block_names(*old(self), dir_ino, dir_inode.i_generation, pblk, name@, p.0, p.1)
                && entry_removed(*old(self), *final(self), dir_ino, dir_inode.i_generation, pblk, name@),
    {
        let (leaf_pblk, _) = self.read_directory_logical_raw(dir_ino, dir_inode, leaf_lblk)?;
        let removed = self.remove_in_block(dir_ino, dir_inode.i_generation, leaf_pblk, name)?;
        proof {
            if removed is Some {
                assert(dir_block_names(*old(self), dir_ino, dir_inode.i_generation, leaf_pblk, name@,
                    removed->Some_0.0, removed->Some_0.1));
            }
        }
        Ok(removed)
    }

    /// Removes the first live entry named `name` from a hashed directory: its hash picks the
    /// leaves to search through the root's index (and one level of index nodes below it);
    /// `ENOENT` when none of them holds the name.
    fn remove_indexed_dirent(&mut self, dir_ino: u32, dir_inode: &Ext4Inode, name: &[u8]) -> (r: SysResult<(u32, u8)>)
        requires
            old(self).wf(),
            dir_inode.raw@.len() >= INODE_BLOCK_ARRAY_OFF + INODE_BLOCK_ARRAY_SIZE,
        ensures
            final(self).unchanged_but_dev(*old(self)),
            r matches Ok(p) ==> p.0 != 0 && exists|pblk: u64|
                #![trigger dir_block_names(*old(self), dir_ino, dir_inode.i_generation, pblk, name@, p.0, p.1)]
                dir_block_names(*old(self), dir_ino, dir_inode.i_generation, pblk, name@, p.0, p.1)
                && entry_removed(*old(self), *final(self), dir_ino, dir_inode.i_generation, pblk, name@),
    {
        let (_, root_raw) = self.read_directory_logical_raw(dir_ino, dir_inode, 0)?;
        let (hash_version, root, indirect_levels) = parse_htree_root(root_raw.as_slice(), self.block_size as usize,
            self.metadata_csum, self.flags)?;
        let hash = htree_hash(name, &self.hash_seed, hash_version)?;
        let root_start = htree_find_position(root_raw.as_slice(), root, hash);
        if indirect_levels == 0 {
            let mut pos = root_start;
            while pos < root.count as usize
                invariant
                    self.wf(),
                    *self == *old(self),
                    node_ok(root_raw@, root),
                    dir_inode.raw@.len() >= INODE_BLOCK_ARRAY_OFF + INODE_BLOCK_ARRAY_SIZE,
                ensures
                    *self == *old(self),
                decreases root.count - pos,
            {
                if pos != root_start && !htree_hash_matches(root_raw.as_slice(), root, pos, hash) {
                    break;
                }
                let leaf_lblk = htree_entry_block(root_raw.as_slice(), root, pos)?;
                match self.try_remove_indexed_leaf(dir_ino, dir_inode, leaf_lblk, name)? {
                    Some(removed) => return Ok(removed),
                    None => {},
                }
                pos += 1;
            }
        } else {
            let mut root_pos = root_start;
            while root_pos < root.count as usize
                invariant
                    self.wf(),
                    *self == *old(self),
                    node_ok(root_raw@, root),
                    dir_inode.raw@.len() >= INODE_BLOCK_ARRAY_OFF + INODE_BLOCK_ARRAY_SIZE,
                ensures
                    *self == *old(self),
                decreases root.count - root_pos,
            {
                if root_pos != root_start && !htree_hash_matches(root_raw.as_slice(), root, root_pos, hash) {
                    break;
                }
                let node_lblk = htree_entry_block(root_raw.as_slice(), root, root_pos)?;
                let (_, node_raw) = self.read_directory_logical_raw(dir_ino, dir_inode, node_lblk)?;
                let node = parse_htree_node(node_raw.as_slice(), self.block_size as usize, self.metadata_csum)?;
                let node_start = if root_pos == root_start {
                    htree_find_position(node_raw.as_slice(), node, hash)
                } else {
                    0
                };
                let mut node_pos = node_start;
                while node_pos < node.count as usize
                    invariant
                        self.wf(),
                        *self == *old(self),
                        node_ok(node_raw@, node),
                        dir_inode.raw@.len() >= INODE_BLOCK_ARRAY_OFF + INODE_BLOCK_ARRAY_SIZE,
                    ensures
                        *self == *old(self),
                    decreases node.count - node_pos,
                {
                    if node_pos != node_start && !htree_hash_matches(node_raw.as_slice(), node, node_pos, hash) {
                        break;
                    }
                    let leaf_lblk = htree_entry_block(node_raw.as_slice(), node, node_pos)?;
                    match self.try_remove_indexed_leaf(dir_ino, dir_inode, leaf_lblk, name)? {
                        Some(removed) => return Ok(removed),
                        None => {},
                    }
                    node_pos += 1;
                }
                root_pos += 1;
            }
        }
        Err(Errno::ENOENT)
    }

    /// Points the ".." entry of a hashed directory's root block at `parent_ino`: the entry
    /// follows the "." entry, whose record length is read from the block, and its checksum tail
    /// is brought up to date; `EIO` when the entries are not where they belong.
    #[verifier::rlimit(80)]
    #[verifier::spinoff_prover]
    fn patch_indexed_dotdot(&mut self, dir_ino: u32, dir_inode: &Ext4Inode, parent_ino: u32) -> (r: SysResult<()>)
        requires
            old(self).wf(),
            dir_inode.raw@.len() >= INODE_BLOCK_ARRAY_OFF + INODE_BLOCK_ARRAY_SIZE,
        ensures
            final(self).unchanged_but_dev(*old(self)),
            r is Err ==> final(self).dev@ == old(self).dev@,
            r is Ok ==> dotdot_repointed(*old(self), *final(self), dir_ino, *dir_inode, parent_ino),
    {
        let (pblk, mut raw) = self.read_directory_logical_raw(dir_ino, dir_inode, 0)?;
        let ghost orig = raw@;
        let dot_len = get_u16_le(raw.as_slice(), 4)? as usize;
        let header_end = match dot_len.checked_add(DIR_ENTRY_HEADER_SIZE) {
            Some(v) => v,
            None => return Err(Errno::EINVAL),
        };
        if dot_len == 0 || header_end > raw.len() {
            return Err(Errno::EIO);
        }
        let name_len = get_u8(raw.as_slice(), dot_len + 6)? as usize;
        let name_end = match header_end.checked_add(name_len) {
            Some(v) => v,
            None => return Err(Errno::EINVAL),
        };
        if name_end > raw.len() {
            return Err(Errno::EIO);
        }
        let dotdot: Vec<u8> = vec![0x2Eu8, 0x2Eu8];
        let found = get_slice(raw.as_slice(), header_end, name_len)?;
        if !bytes_eq(found, dotdot.as_slice()) {
            return Err(Errno::EIO);
        }
        proof {
            assert(found@ == seq![0x2Eu8, 0x2Eu8]);
            assert(found@[0] == orig[header_end as int] && found@[1] == orig[header_end + 1]);
            assert(dotdot_after_dot(orig));
        }
        put_u32_le(&mut raw, dot_len, parent_ino)?;
        let ghost patched = raw@;
        proof {
            crate::bytes::lemma_put32_get(orig, dot_len as int, parent_ino as int);
        }
        if self.metadata_csum {
            if dir_tail_offset(raw.as_slice())?.is_some() {
                self.set_dir_block_checksum(dir_ino, dir_inode.i_generation, &mut raw)?;
                proof {
                    let off = tail_at(patched)->0;
                    crate::bytes::lemma_put32_get(patched, off + 8, le32(raw@, off + 8));
                    assert(raw@[dot_len as int] == patched[dot_len as int]);
                    assert(raw@[dot_len + 1] == patched[dot_len + 1]);
                    assert(raw@[dot_len + 2] == patched[dot_len + 2]);
                    assert(raw@[dot_len + 3] == patched[dot_len + 3]);
                }
            }
        }
        let ghost fin = raw@;
        assert(le32(fin, dot_len as int) == parent_ino);
        let ghost s0 = *self;
        self.write_fs_block(pblk, raw.as_slice())?;
        proof {
            super::io::law_block_write_then_read(s0, *self, pblk as int, fin);
            let p = logical_block_read(*old(self), dir_ino, *dir_inode, 0)->Ok_0;
            assert(p.0 == pblk && p.1 == orig);
            assert(block_read(*self, pblk as int) == Ok::<Seq<u8>, Errno>(fin));
        }
        Ok(())
    }

    /// Removes the first live entry named `name` from the directory block at `pblk`, if it
    /// holds one, and writes the block back.
    #[verifier::rlimit(100)]
    #[verifier::spinoff_prover]
    fn remove_in_block(&mut self, dir_ino: u32, generation: u32, pblk: u64, name: &[u8]) -> (r: SysResult<Option<(u32, u8)>>)
        requires
            old(self).wf(),
        ensures
            final(self).unchanged_but_dev(*old(self)),
            r matches Ok(None) ==> *final(self) == *old(self),
            r matches Ok(Some(p)) ==> p.0 != 0 && dir_block_names(*old(self), dir_ino, generation, pblk, name@, p.0, p.1)
                && entry_removed(*old(self), *final(self), dir_ino, generation, pblk, name@),
            dir_block_read(*old(self), dir_ino, generation, pblk) matches Err(e) ==> r == Err::<Option<(u32, u8)>, Errno>(e)
                && *final(self) == *old(self),
            r == Ok::<Option<(u32, u8)>, Errno>(None) <==> dir_block_read(*old(self), dir_ino, generation, pblk) is Ok
                && !block_holds_name(*old(self), dir_ino, generation, pblk, name@),
            block_holds_name(*old(self), dir_ino, generation, pblk, name@) && removal_fits(*old(self), dir_ino, generation, pblk, name@)
                ==> r matches Ok(Some(_)),
    {
        let mut dir_block = self.read_dir_block(dir_ino, generation, pblk)?;
        let ghost raw = dir_block.raw@;
        let ghost offs = dir_offsets(raw, self.metadata_csum)->Ok_0;
        let ghost es = dir_block.entries@;
        let ghost ms = models(es);
        proof {
            lemma_models_wf(es);
            assert forall|k: int| 0 <= k < offs.len() implies #[trigger] entry_model_at(raw, offs[k]).inode == ms[k].inode
                && entry_model_at(raw, offs[k]).name == ms[k].name by {
                assert(entry_matches(es[k], raw, offs[k]));
                lemma_entry_model(es[k], raw, offs[k]);
                assert(ms[k] == es[k]@);
            }
            assert forall|k: int| 0 <= k < offs.len() implies #[trigger] entry_model_at(raw, offs[k]) == ms[k] by {
                assert(entry_matches(es[k], raw, offs[k]));
                assert(ms[k] == es[k]@);
            }
            assert(block_models(*self, dir_ino, generation, pblk) == Some(ms)) by {
                assert(Seq::new(offs.len(), |k: int| entry_model_at(raw, offs[k])) =~= ms);
            }
        }
        let removed = match remove_dirent_from_block(&mut dir_block, name) {
            Ok(Some(x)) => x,
            Ok(None) => {
                proof {
                    assert forall|k: int| 0 <= k < offs.len() implies !(#[trigger] entry_model_at(raw, offs[k]).inode != 0
                        && entry_model_at(raw, offs[k]).name == name@) by {
                        assert(!names(ms[k], name@));
                    }
                }
                return Ok(None);
            },
            Err(e) => {
                proof {
                    let idx = choose|idx: int| #![trigger ms[idx]] 0 <= idx < ms.len() && names(ms[idx], name@)
                        && (forall|k: int| 0 <= k < idx ==> !names(#[trigger] ms[k], name@))
                        && super::dirent::remove_overflows(ms, idx);
                    assert(entry_model_at(raw, offs[idx]).inode != 0 && entry_model_at(raw, offs[idx]).name == name@);
                }
                return Err(e);
            },
        };
        proof {
            let idx = choose|idx: int| #![trigger ms[idx]] 0 <= idx < ms.len() && names(ms[idx], name@)
                && (forall|k: int| 0 <= k < idx ==> !names(#[trigger] ms[k], name@))
                && removed.0 == ms[idx].inode && removed.1 == ms[idx].file_type
                && !super::dirent::remove_overflows(ms, idx)
                && models(dir_block.entries@) == super::dirent::remove_at(ms, idx);
            assert(ms[idx] == es[idx]@);
            assert(entry_matches(es[idx], raw, offs[idx]));
            lemma_entry_model(es[idx], raw, offs[idx]);
            assert(block_names(raw, offs, idx, name@, removed.0, removed.1));
            assert(dir_block_names(*old(self), dir_ino, generation, pblk, name@, removed.0, removed.1));
            lemma_remove_at_wf(ms, idx);
            lemma_models_wf(dir_block.entries@);
        }
        proof {
            let idx = choose|idx: int| #![trigger ms[idx]] 0 <= idx < ms.len() && names(ms[idx], name@)
                && (forall|k: int| 0 <= k < idx ==> !names(#[trigger] ms[k], name@))
                && removed.0 == ms[idx].inode && removed.1 == ms[idx].file_type
                && !super::dirent::remove_overflows(ms, idx)
                && models(dir_block.entries@) == super::dirent::remove_at(ms, idx);
            assert(entry_model_at(raw, offs[idx]).inode != 0 && entry_model_at(raw, offs[idx]).name == name@);
        }
        let ghost new_es = dir_block.entries@;
        proof {
            if removal_fits(*self, dir_ino, generation, pblk, name@) {
                let idx = choose|idx: int| #![trigger ms[idx]] 0 <= idx < ms.len() && names(ms[idx], name@)
                    && (forall|k: int| 0 <= k < idx ==> !names(#[trigger] ms[k], name@))
                    && removed.0 == ms[idx].inode && removed.1 == ms[idx].file_type
                    && !super::dirent::remove_overflows(ms, idx)
                    && models(new_es) == super::dirent::remove_at(ms, idx);
                lemma_remove_at_layout(ms, idx, dir_entry_room(*self));
                lemma_layout_models(new_es, dir_entry_room(*self));
                super::io::lemma_div_self(self.block_size as int);
                assert(block_read(*self, pblk as int) is Ok);
            }
        }
        self.write_dir_block(dir_ino, generation, &mut dir_block)?;
        proof {
            let idx = choose|idx: int| #![trigger ms[idx]] 0 <= idx < ms.len() && names(ms[idx], name@)
                && (forall|k: int| 0 <= k < idx ==> !names(#[trigger] ms[k], name@))
                && removed.0 == ms[idx].inode && removed.1 == ms[idx].file_type
                && !super::dirent::remove_overflows(ms, idx)
                && models(new_es) == super::dirent::remove_at(ms, idx);
            let raw2 = dir_block.raw@;
            let offs2 = laid_out_offsets(new_es);
            let before = block_entries(*old(self), dir_ino, generation, pblk)->Some_0;
            let after = block_entries(*self, dir_ino, generation, pblk)->Some_0;
            assert forall|k: int| 0 <= k < before.len() implies #[trigger] before[k] == (ms[k].inode, ms[k].name, ms[k].file_type) by {
                assert(entry_matches(es[k], raw, offs[k]));
                lemma_entry_model(es[k], raw, offs[k]);
                assert(ms[k] == es[k]@);
            }
            let rm = super::dirent::remove_at(ms, idx);
            assert forall|k: int| 0 <= k < after.len() implies #[trigger] after[k] == (rm[k].inode, rm[k].name, rm[k].file_type) by {
                assert(entry_matches(dir_block.entries@[k], raw2, offs2[k]));
                lemma_entry_model(dir_block.entries@[k], raw2, offs2[k]);
                assert(dir_block.entries@[k] == placed(new_es[k], rec_off(new_es, k)));
                assert(models(new_es)[k] == new_es[k]@);
            }
            let expect = entries_without(before, idx);
            assert(before.len() == offs.len());
            assert(offs.len() == es.len());
            assert(ms.len() == es.len());
            assert(after.len() == offs2.len());
            assert(offs2.len() == new_es.len());
            assert(rm.len() == models(new_es).len());
            if ms.len() > 1 {
                assert(before[1] == (ms[1].inode, ms[1].name, ms[1].file_type));
            }
            assert(after.len() == expect.len());
            assert forall|k: int| 0 <= k < after.len() implies after[k] == expect[k] by {
                if idx > 0 {
                    if k < idx - 1 {
                    } else if k == idx - 1 {
                    } else {
                        assert(rm[k] == ms[k + 1]);
                    }
                } else if ms.len() > 1 && ms[1].inode == 0 {
                    if k == 0 {
                        assert(rm[0] == (super::defs::DirEntryModel { rec_len: (ms[1].rec_len + ms[0].rec_len) as u16, ..ms[1] }));
                    } else {
                        assert(rm[k] == ms[k + 1]);
                    }
                } else {
                    if k == 0 {
                        assert(rm[0] == super::dirent::unused_model(ms[0].rec_len));
                    }
                }
            }
            assert(after =~= expect);
            assert(before[idx].0 != 0 && before[idx].1 == name@);
            assert forall|k: int| 0 <= k < idx implies !((#[trigger] before[k]).0 != 0 && before[k].1 == name@) by {
                assert(!names(ms[k], name@));
            }
        }
        Ok(Some(removed))
    }

    /// Points the ".." entry of a directory's first block at `parent_ino`; `EIO` when the
    /// block or the entry is missing.
    pub fn patch_dotdot(&mut self, dir_ino: u32, dir_inode: &Ext4Inode, parent_ino: u32) -> (r: SysResult<()>)
        requires
            old(self).wf(),
            dir_inode.raw@.len() >= INODE_BLOCK_ARRAY_OFF + INODE_BLOCK_ARRAY_SIZE,
        ensures
            final(self).unchanged_but_dev(*old(self)),
            has_bits(dir_inode.i_flags, INODE_FLAG_INLINE_DATA) || !has_bits(dir_inode.i_flags, INODE_FLAG_EXTENTS)
                ==> r == Err::<(), Errno>(Errno::EOPNOTSUPP) && final(self).dev@ == old(self).dev@,
            r is Err ==> final(self).dev@ == old(self).dev@,
            r is Ok && has_bits(dir_inode.i_flags, INODE_FLAG_INDEX) ==> dotdot_repointed(*old(self), *final(self),
                dir_ino, *dir_inode, parent_ino),
    {
        if flags_contain(dir_inode.i_flags, INODE_FLAG_INLINE_DATA) {
            return Err(Errno::EOPNOTSUPP);
        }
        if !flags_contain(dir_inode.i_flags, INODE_FLAG_EXTENTS) {
            return Err(Errno::EOPNOTSUPP);
        }
        if flags_contain(dir_inode.i_flags, INODE_FLAG_INDEX) {
            return self.patch_indexed_dotdot(dir_ino, dir_inode, parent_ino);
        }
        let root = self.parse_extent_root(dir_inode)?;
        proof {
            super::tree::lemma_leaves_of_starts48(root_bytes(*dir_inode));
            lemma_starts48_bounded(root.leaf@);
        }
        let pblk = match super::lookup::lookup_lblk_mut(self, root, dir_ino, dir_inode.i_generation, 0)? {
            Some(p) => p,
            None => return Err(Errno::EIO),
        };
        let mut dir_block = self.read_dir_block(dir_ino, dir_inode.i_generation, pblk)?;
        let dotdot: Vec<u8> = vec![0x2Eu8, 0x2Eu8];
        let mut i: usize = 0;
        while i < dir_block.entries.len()
            invariant
                self.wf(),
                self.unchanged_but_dev(*old(self)),
                self.dev@ == old(self).dev@,
                !has_bits(dir_inode.i_flags, INODE_FLAG_INLINE_DATA),
                has_bits(dir_inode.i_flags, INODE_FLAG_EXTENTS),
                !has_bits(dir_inode.i_flags, INODE_FLAG_INDEX),
                i <= dir_block.entries@.len(),
                forall|k: int| 0 <= k < dir_block.entries@.len() ==> dirent_wf(#[trigger] dir_block.entries@[k]),
            decreases dir_block.entries@.len() - i,
        {
            if dir_block.entries[i].inode != 0 && bytes_eq(dir_block.entries[i].name.as_slice(), dotdot.as_slice()) {
                let mut entry = copy_dir_entry(&dir_block.entries[i]);
                entry.inode = parent_ino;
                dir_block.entries.set(i, entry);
                proof {
                    assert forall|k: int| 0 <= k < dir_block.entries@.len() implies dirent_wf(#[trigger] dir_block.entries@[k]) by {
                        if k == i {
                            assert(dir_block.entries@[k].name@ == entry.name@);
                        }
                    }
                }
                return self.write_dir_block(dir_ino, dir_inode.i_generation, &mut dir_block);
            }
            i += 1;
        }
        Err(Errno::EIO)
    }
}

} // verus!
