//! Directory entries within one block: sizes, new and unused entries, inserting a name
//! into free space and removing a name.
use vstd::prelude::*;
use crate::errno::{Errno, SysResult};
use super::defs::{DirBlock, DirEntry2, DirEntryModel, Ext4DirEntryFileType, spec_file_type_code,
    DIR_ENTRY_HEADER_SIZE, DIR_ENTRY_TAIL_SIZE, EXT4_MAX_NAME_LEN};
use super::dir::{dir_tail_offset, tail_at, dirent_wf};
use crate::bytes::copy_range;

verus! {

/// The record length an entry with a name of `n` bytes needs: header and name, rounded up to 4.
pub open spec fn min_len(n: int) -> int {
    ((DIR_ENTRY_HEADER_SIZE + n + 3) / 4) * 4
}

/// A new entry for `inode` named `name`.
pub open spec fn new_model(inode: u32, name: Seq<u8>, file_type: u8, rec_len: u16) -> DirEntryModel {
    DirEntryModel { inode, rec_len, name_len: name.len() as u8, file_type, name, entry_off: 0 }
}

/// An unused entry spanning `rec_len` bytes.
pub open spec fn unused_model(rec_len: u16) -> DirEntryModel {
    DirEntryModel { inode: 0, rec_len, name_len: 0, file_type: 0, name: Seq::empty(), entry_off: 0 }
}

/// An entry has room for a new record of `need` bytes: all of it when unused, past its own
/// name otherwise.
pub open spec fn slot_ok(m: DirEntryModel, need: int) -> bool {
    if m.inode == 0 { m.rec_len >= need } else { m.rec_len >= min_len(m.name_len as int) + need }
}

/// The entries after the new name is put into the room of entry `idx`.
pub open spec fn insert_at(ms: Seq<DirEntryModel>, idx: int, child: u32, name: Seq<u8>, ft: u8, need: int) -> Seq<DirEntryModel> {
    let m = ms[idx];
    if m.inode == 0 {
        if m.rec_len - need >= DIR_ENTRY_HEADER_SIZE {
            ms.update(idx, new_model(child, name, ft, need as u16)).insert(idx + 1, unused_model((m.rec_len - need) as u16))
        } else {
            ms.update(idx, new_model(child, name, ft, m.rec_len))
        }
    } else {
        let actual = min_len(m.name_len as int);
        ms.update(idx, DirEntryModel { rec_len: actual as u16, ..m }).insert(idx + 1,
            new_model(child, name, ft, (m.rec_len - actual) as u16))
    }
}

/// Entry `k` is a live entry named `name`.
pub open spec fn names(m: DirEntryModel, name: Seq<u8>) -> bool {
    m.inode != 0 && m.name == name
}

/// The views of a list of entries.
pub open spec fn models(es: Seq<DirEntry2>) -> Seq<DirEntryModel> {
    es.map_values(|e: DirEntry2| e@)
}

/// The entries after the live entry `idx` is removed, its space given to a neighbour, or
/// turned unused when it is first and its successor is live.
pub open spec fn remove_at(ms: Seq<DirEntryModel>, idx: int) -> Seq<DirEntryModel> {
    let len = ms[idx].rec_len;
    if idx > 0 {
        ms.update(idx - 1, DirEntryModel { rec_len: (ms[idx - 1].rec_len + len) as u16, ..ms[idx - 1] }).remove(idx)
    } else if ms.len() > 1 && ms[1].inode == 0 {
        ms.update(1, DirEntryModel { rec_len: (ms[1].rec_len + len) as u16, ..ms[1] }).remove(0)
    } else {
        ms.update(0, unused_model(len))
    }
}

/// Removing entry `idx` overflows the neighbour's record length.
pub open spec fn remove_overflows(ms: Seq<DirEntryModel>, idx: int) -> bool {
    let len = ms[idx].rec_len;
    if idx > 0 {
        ms[idx - 1].rec_len + len > u16::MAX
    } else if ms.len() > 1 && ms[1].inode == 0 {
        ms[1].rec_len + len > u16::MAX
    } else {
        false
    }
}

/// Offset of entry `k` when the entries are laid out back to back.
pub open spec fn rec_off_m(ms: Seq<DirEntryModel>, k: int) -> int
    decreases k,
{
    if k <= 0 { 0 } else { rec_off_m(ms, k - 1) + ms[k - 1].rec_len }
}

/// An entry's record is aligned, holds a header, and holds its name.
pub open spec fn model_writable(m: DirEntryModel) -> bool {
    &&& m.rec_len >= 8
    &&& m.rec_len % 4 == 0
    &&& m.name_len <= m.rec_len - 8
}

/// The entries can be laid out back to back to fill exactly `limit` bytes.
pub open spec fn layout_ok_m(ms: Seq<DirEntryModel>, limit: int) -> bool {
    &&& forall|k: int| 0 <= k < ms.len() ==> model_writable(#[trigger] ms[k]) && rec_off_m(ms, k) <= u16::MAX
        && rec_off_m(ms, k + 1) <= limit
    &&& rec_off_m(ms, ms.len() as int) == limit
}

/// Offsets agree as far as the record lengths agree.
proof fn lemma_rec_off_prefix(ms: Seq<DirEntryModel>, t: Seq<DirEntryModel>, k: int)
    requires
        0 <= k,
        forall|j: int| 0 <= j < k ==> #[trigger] t[j].rec_len == ms[j].rec_len,
    ensures
        rec_off_m(t, k) == rec_off_m(ms, k),
    decreases k,
{
    if k > 0 {
        lemma_rec_off_prefix(ms, t, k - 1);
    }
}

/// Offsets of `t` from `i` on are those of `ms` one entry further, when the record lengths
/// are so shifted and the offsets agree at `i`.
proof fn lemma_rec_off_shift(ms: Seq<DirEntryModel>, t: Seq<DirEntryModel>, i: int, k: int)
    requires
        0 <= i <= k,
        forall|j: int| i <= j < k ==> #[trigger] t[j].rec_len == ms[j + 1].rec_len,
        rec_off_m(t, i) == rec_off_m(ms, i + 1),
    ensures
        rec_off_m(t, k) == rec_off_m(ms, k + 1),
    decreases k - i,
{
    if k > i {
        lemma_rec_off_shift(ms, t, i, k - 1);
    }
}

/// Taking out an entry after the first: its record goes to the entry before it.
#[verifier::spinoff_prover]
proof fn lemma_remove_later_layout(ms: Seq<DirEntryModel>, idx: int, limit: int)
    requires
        layout_ok_m(ms, limit),
        0 < idx < ms.len(),
        !remove_overflows(ms, idx),
    ensures
        layout_ok_m(remove_at(ms, idx), limit),
{
    let n = ms.len() as int;
    let t = remove_at(ms, idx);
    let len = ms[idx].rec_len;
    assert(model_writable(ms[idx - 1]) && model_writable(ms[idx]));
    assert forall|j: int| 0 <= j < idx - 1 implies #[trigger] t[j].rec_len == ms[j].rec_len by {}
    lemma_rec_off_prefix(ms, t, idx - 1);
    assert(t[idx - 1].rec_len == ms[idx - 1].rec_len + len);
    assert(rec_off_m(t, idx) == rec_off_m(t, idx - 1) + t[idx - 1].rec_len);
    assert(rec_off_m(ms, idx + 1) == rec_off_m(ms, idx) + len);
    assert(rec_off_m(ms, idx) == rec_off_m(ms, idx - 1) + ms[idx - 1].rec_len);
    assert forall|j: int| idx <= j < n - 1 implies #[trigger] t[j].rec_len == ms[j + 1].rec_len by {}
    assert forall|k: int| 0 <= k < t.len() implies model_writable(#[trigger] t[k]) && rec_off_m(t, k) <= u16::MAX
        && rec_off_m(t, k + 1) <= limit by {
        if k < idx - 1 {
            lemma_rec_off_prefix(ms, t, k);
            lemma_rec_off_prefix(ms, t, k + 1);
            assert(t[k] == ms[k]);
        } else if k == idx - 1 {
        } else {
            lemma_rec_off_shift(ms, t, idx, k);
            lemma_rec_off_shift(ms, t, idx, k + 1);
            assert(t[k] == ms[k + 1]);
        }
    }
    lemma_rec_off_shift(ms, t, idx, n - 1);
}

/// Taking out the first entry when an unused one follows: that one takes its record.
#[verifier::spinoff_prover]
proof fn lemma_remove_first_merge_layout(ms: Seq<DirEntryModel>, limit: int)
    requires
        layout_ok_m(ms, limit),
        ms.len() > 1,
        ms[1].inode == 0,
        !remove_overflows(ms, 0),
    ensures
        layout_ok_m(remove_at(ms, 0), limit),
{
    let n = ms.len() as int;
    let t = remove_at(ms, 0);
    assert(model_writable(ms[0]) && model_writable(ms[1]));
    assert(rec_off_m(t, 0) == 0);
    assert(rec_off_m(t, 1) == rec_off_m(t, 0) + t[0].rec_len);
    assert(rec_off_m(ms, 1) == rec_off_m(ms, 0) + ms[0].rec_len);
    assert(rec_off_m(ms, 2) == rec_off_m(ms, 1) + ms[1].rec_len);
    assert forall|j: int| 1 <= j < n - 1 implies #[trigger] t[j].rec_len == ms[j + 1].rec_len by {}
    assert forall|k: int| 0 <= k < t.len() implies model_writable(#[trigger] t[k]) && rec_off_m(t, k) <= u16::MAX
        && rec_off_m(t, k + 1) <= limit by {
        if k == 0 {
        } else {
            lemma_rec_off_shift(ms, t, 1, k);
            lemma_rec_off_shift(ms, t, 1, k + 1);
            assert(t[k] == ms[k + 1]);
        }
    }
    lemma_rec_off_shift(ms, t, 1, n - 1);
}

/// Taking out an entry whose record merges without overflow keeps a good layout.
pub proof fn lemma_remove_at_layout(ms: Seq<DirEntryModel>, idx: int, limit: int)
    requires
        layout_ok_m(ms, limit),
        0 <= idx < ms.len(),
        !remove_overflows(ms, idx),
    ensures
        layout_ok_m(remove_at(ms, idx), limit),
{
    let n = ms.len() as int;
    let t = remove_at(ms, idx);
    if idx > 0 {
        lemma_remove_later_layout(ms, idx, limit);
    } else if ms.len() > 1 && ms[1].inode == 0 {
        lemma_remove_first_merge_layout(ms, limit);
    } else {
        assert(model_writable(ms[0]));
        assert forall|j: int| 0 <= j < n implies #[trigger] t[j].rec_len == ms[j].rec_len by {}
        assert forall|k: int| 0 <= k < t.len() implies model_writable(#[trigger] t[k]) && rec_off_m(t, k) <= u16::MAX
            && rec_off_m(t, k + 1) <= limit by {
            lemma_rec_off_prefix(ms, t, k);
            lemma_rec_off_prefix(ms, t, k + 1);
            if k > 0 {
                assert(t[k] == ms[k]);
            }
        }
        lemma_rec_off_prefix(ms, t, n);
    }
}

/// The record length a name of `name_len` bytes needs; `EINVAL` beyond a 16-bit length.
pub fn dirent_min_len(name_len: usize) -> (r: SysResult<u16>)
    requires
        name_len <= usize::MAX - DIR_ENTRY_HEADER_SIZE - 3,
    ensures
        match r {
            Ok(v) => v == min_len(name_len as int),
            Err(e) => e == Errno::EINVAL && min_len(name_len as int) > u16::MAX,
        },
{
    let raw = DIR_ENTRY_HEADER_SIZE + name_len;
    let aligned = (raw + 3) / 4 * 4;
    if aligned > 0xFFFF {
        return Err(Errno::EINVAL);
    }
    Ok(aligned as u16)
}

/// The bytes of a directory block that entries may use: all of it, or all but the checksum tail.
pub fn writable_dir_bytes(block_size: usize, metadata_csum: bool) -> (r: SysResult<usize>)
    ensures
        match r {
            Ok(v) => v == (if metadata_csum { block_size - DIR_ENTRY_TAIL_SIZE } else { block_size as int }),
            Err(e) => e == Errno::EINVAL && metadata_csum && block_size < DIR_ENTRY_TAIL_SIZE,
        },
{
    if metadata_csum {
        if block_size < DIR_ENTRY_TAIL_SIZE {
            return Err(Errno::EINVAL);
        }
        Ok(block_size - DIR_ENTRY_TAIL_SIZE)
    } else {
        Ok(block_size)
    }
}

/// Where the checksum tail of a directory block sits, if it has one.
pub fn dir_entry_tail_offset(raw: &[u8]) -> (r: SysResult<Option<usize>>)
    ensures
        match r {
            Ok(Some(o)) => tail_at(raw@) == Some(o as int),
            Ok(None) => tail_at(raw@) is None,
            Err(_) => false,
        },
{
    dir_tail_offset(raw)
}

/// A new entry for `inode` named `name`; `EINVAL` for a name longer than 255 bytes.
pub fn new_dir_entry(inode: u32, name: &[u8], file_type: Ext4DirEntryFileType, rec_len: u16) -> (r: SysResult<DirEntry2>)
    ensures
        match r {
            Ok(e) => name@.len() <= EXT4_MAX_NAME_LEN && e@ == new_model(inode, name@, spec_file_type_code(file_type), rec_len)
                && dirent_wf(e),
            Err(e) => e == Errno::EINVAL && name@.len() > EXT4_MAX_NAME_LEN,
        },
{
    if name.len() > EXT4_MAX_NAME_LEN {
        return Err(Errno::EINVAL);
    }
    let name_buf = copy_range(name, 0, name.len());
    assert(name_buf@ =~= name@);
    Ok(DirEntry2 { inode, rec_len, name_len: name.len() as u8, file_type: file_type.as_u8(), name: name_buf, entry_off: 0 })
}

/// An unused entry spanning `rec_len` bytes.
pub fn unused_dir_entry(rec_len: u16) -> (r: DirEntry2)
    ensures
        r@ == unused_model(rec_len),
        dirent_wf(r),
{
    let name: Vec<u8> = Vec::new();
    DirEntry2 { inode: 0, rec_len, name_len: 0, file_type: 0, name, entry_off: 0 }
}

/// Puts a new entry for `child_ino` named `name` into the first entry with room for it: an
/// unused entry is taken (its rest left unused when big enough), a live one is shortened to
/// its own size. Gives whether there was room.
pub fn insert_dirent_into_block(block: &mut DirBlock, name: &[u8], child_ino: u32, file_type: Ext4DirEntryFileType)
    -> (r: SysResult<bool>)
    requires
        min_len(name@.len() as int) + min_len(255) <= u16::MAX,
    ensures
        final(block).pblk == old(block).pblk,
        final(block).raw@ == old(block).raw@,
        ({
            let ms = models(old(block).entries@);
            let need = min_len(name@.len() as int);
            let ft = spec_file_type_code(file_type);
            match r {
                Ok(true) => exists|idx: int| #![trigger ms[idx]] 0 <= idx < ms.len() && slot_ok(ms[idx], need)
                    && (forall|k: int| 0 <= k < idx ==> !slot_ok(#[trigger] ms[k], need))
                    && models(final(block).entries@) == insert_at(ms, idx, child_ino, name@, ft, need)
                    && name@.len() <= EXT4_MAX_NAME_LEN,
                Ok(false) => (forall|k: int| 0 <= k < ms.len() ==> !slot_ok(#[trigger] ms[k], need))
                    && final(block).entries@ == old(block).entries@,
                Err(e) => e == Errno::EINVAL && name@.len() > EXT4_MAX_NAME_LEN && final(block).entries@ == old(block).entries@,
            }
        }),
{
    let need = dirent_min_len(name.len())?;
    let ghost ms = models(block.entries@);
    let n = block.entries.len();
    let mut idx: usize = 0;
    while idx < n
        invariant
            n == block.entries@.len(),
            ms == models(block.entries@),
            block.entries@ == old(block).entries@,
            block.pblk == old(block).pblk,
            block.raw@ == old(block).raw@,
            need == min_len(name@.len() as int),
            min_len(name@.len() as int) + min_len(255) <= u16::MAX,
            idx <= n,
            forall|k: int| 0 <= k < idx ==> !slot_ok(#[trigger] ms[k], need as int),
        decreases n - idx,
    {
        let e_inode = block.entries[idx].inode;
        let e_rec_len = block.entries[idx].rec_len;
        let e_name_len = block.entries[idx].name_len;
        assert(ms[idx as int] == block.entries@[idx as int]@);
        if e_inode == 0 {
            if e_rec_len < need {
                idx += 1;
                continue;
            }
            let remain = e_rec_len - need;
            let entry = new_dir_entry(child_ino, name, file_type, if remain >= DIR_ENTRY_HEADER_SIZE as u16 { need } else { e_rec_len })?;
            if remain >= DIR_ENTRY_HEADER_SIZE as u16 {
                block.entries.set(idx, entry);
                block.entries.insert(idx + 1, unused_dir_entry(remain));
            } else {
                block.entries.set(idx, entry);
            }
            proof {
                assert(models(block.entries@) =~= insert_at(ms, idx as int, child_ino, name@, spec_file_type_code(file_type), need as int));
            }
            return Ok(true);
        }
        let actual = dirent_min_len(e_name_len as usize)?;
        if e_rec_len < actual + need {
            idx += 1;
            continue;
        }
        let new_rec_len = e_rec_len - actual;
        let entry = new_dir_entry(child_ino, name, file_type, new_rec_len)?;
        let mut old_entry = block.entries.remove(idx);
        old_entry.rec_len = actual;
        block.entries.insert(idx, old_entry);
        block.entries.insert(idx + 1, entry);
        proof {
            assert(models(block.entries@) =~= insert_at(ms, idx as int, child_ino, name@, spec_file_type_code(file_type), need as int));
        }
        return Ok(true);
    }
    Ok(false)
}

/// Removes the first live entry named `name`, giving its inode and file type.
pub fn remove_dirent_from_block(block: &mut DirBlock, name: &[u8]) -> (r: SysResult<Option<(u32, u8)>>)
    ensures
        final(block).pblk == old(block).pblk,
        final(block).raw@ == old(block).raw@,
        ({
            let ms = models(old(block).entries@);
            match r {
                Ok(Some((ino, ft))) => exists|idx: int| #![trigger ms[idx]] 0 <= idx < ms.len() && names(ms[idx], name@)
                    && (forall|k: int| 0 <= k < idx ==> !names(#[trigger] ms[k], name@))
                    && ino == ms[idx].inode && ft == ms[idx].file_type && !remove_overflows(ms, idx)
                    && models(final(block).entries@) == remove_at(ms, idx),
                Ok(None) => (forall|k: int| 0 <= k < ms.len() ==> !names(#[trigger] ms[k], name@))
                    && final(block).entries@ == old(block).entries@,
                Err(e) => e == Errno::EINVAL && exists|idx: int| #![trigger ms[idx]] 0 <= idx < ms.len() && names(ms[idx], name@)
                    && (forall|k: int| 0 <= k < idx ==> !names(#[trigger] ms[k], name@)) && remove_overflows(ms, idx),
            }
        }),
{
    let ghost ms = models(block.entries@);
    let n = block.entries.len();
    let mut idx: usize = 0;
    while idx < n
        invariant
            n == block.entries@.len(),
            ms == models(block.entries@),
            block.entries@ == old(block).entries@,
            block.pblk == old(block).pblk,
            block.raw@ == old(block).raw@,
            idx <= n,
            forall|k: int| 0 <= k < idx ==> !names(#[trigger] ms[k], name@),
        decreases n - idx,
    {
        assert(ms[idx as int] == block.entries@[idx as int]@);
        let same = block.entries[idx].inode != 0 && crate::bytes::bytes_eq(block.entries[idx].name.as_slice(), name);
        if !same {
            idx += 1;
            continue;
        }
        let removed_ino = block.entries[idx].inode;
        let removed_ft = block.entries[idx].file_type;
        let removed_len = block.entries[idx].rec_len;
        if idx > 0 {
            let prev_len = block.entries[idx - 1].rec_len;
            let sum = match prev_len.checked_add(removed_len) {
                Some(v) => v,
                None => return Err(Errno::EINVAL),
            };
            let mut prev = block.entries.remove(idx - 1);
            prev.rec_len = sum;
            block.entries.insert(idx - 1, prev);
            block.entries.remove(idx);
        } else if n > 1 && block.entries[1].inode == 0 {
            let next_len = block.entries[1].rec_len;
            let sum = match next_len.checked_add(removed_len) {
                Some(v) => v,
                None => return Err(Errno::EINVAL),
            };
            let mut next = block.entries.remove(1);
            next.rec_len = sum;
            block.entries.insert(1, next);
            block.entries.remove(0);
        } else {
            block.entries.set(0, unused_dir_entry(removed_len));
        }
        proof {
            assert(models(block.entries@) =~= remove_at(ms, idx as int));
        }
        return Ok(Some((removed_ino, removed_ft)));
    }
    Ok(None)
}

} // verus!
