//! Reading a file's bytes through its extents.
use vstd::prelude::*;
use crate::errno::{Errno, SysResult};
use crate::bytes::{splice, copy_into, fill_zero};
use super::ctx::Context;
use super::defs::{Ext4Inode, ExtentLeaf, has_bits, flags_contain, INODE_FLAG_EXTENTS, INODE_FLAG_INLINE_DATA,
    INODE_BLOCK_ARRAY_OFF, INODE_BLOCK_ARRAY_SIZE, EXT_INIT_MAX_LEN};
use super::extent_map::{find_spec, valid_extents, ext_len, wf_leaf, leaf_end, sorted_leaves, pends_bounded};
use super::io::{block_read, blocks_write, wrote};
use super::balloc::{free_chain, free_block_outcome, block_alloc_scan};
use super::tree::{snapshot_spec, lemma_snapshot_starts48};
use super::data_map::{ext_end, covers, cursor_after, leaf_at_cursor, pblk_at_cursor, hole_len, run_len,
    advance_extent_cursor, mapped_extent_for_read, mapped_read_pblk, full_block_run_len, hole_run_blocks,
    mapped_extent_for_write, mapped_write_pblk, extent_data_error, ensure_extent_data_supported, regular_write_end,
    validate_regular_write};
use super::extent_map::{maps_to, validate_from, mapped, leaf_maps};
use super::tree::only_raw_blocks_changed;

verus! {

/// Byte `pos` of a file mapped by `s`: zero in a hole (and past the 32-bit block range), the
/// device's byte in a mapped block, none when that block cannot be read.
pub open spec fn file_byte(c: Context, s: Seq<ExtentLeaf>, pos: int) -> Option<u8> {
    let bs = c.block_size as int;
    let lblk = pos / bs;
    if lblk > u32::MAX {
        Some(0u8)
    } else {
        match find_spec(s, lblk as u32, true) {
            None => Some(0u8),
            Some(p) => match block_read(c, p as int) {
                Ok(b) => Some(b[pos % bs]),
                Err(_) => None,
            },
        }
    }
}

/// A read of `n` bytes at `offset` through the inode's extents can be served: the tree
/// reads, its leaves are sound, the bytes lie within 32-bit block numbers and every mapped
/// block they touch reads.
pub open spec fn extent_read_ok(c: Context, inode: Ext4Inode, offset: int, n: int) -> bool {
    &&& snapshot_spec(c, inode.ino, inode) matches Ok(s)
    &&& valid_extents(s.1)
    &&& (offset + n - 1) / (c.block_size as int) <= u32::MAX
    &&& bytes_readable(c, s.1, offset, n)
}

/// Every byte of `offset..offset + n` has a value through the leaves `s`: its block is a hole
/// or reads.
#[verifier::opaque]
pub open spec fn bytes_readable(c: Context, s: Seq<ExtentLeaf>, offset: int, n: int) -> bool {
    forall|i: int| 0 <= i < n ==> #[trigger] file_byte(c, s, offset + i) is Some
}

/// The byte at `pos` lies in a block that the leaves `s` map, and that block reads.
pub open spec fn pos_mapped_readable(c: Context, s: Seq<ExtentLeaf>, pos: int) -> bool {
    let l = pos / (c.block_size as int);
    &&& l <= u32::MAX
    &&& find_spec(s, l as u32, true) matches Some(p)
    &&& block_read(c, p as int) is Ok
}

/// A write of `n` bytes at `offset` can be made in place: the leaves are sound, every block
/// the write touches is mapped and reads, and the device takes writes.
pub open spec fn overwrite_ok(c: Context, s: Seq<ExtentLeaf>, offset: int, n: int) -> bool {
    &&& valid_extents(s)
    &&& !c.dev.spec_read_only()
    &&& forall|i: int| 0 <= i < n ==> #[trigger] pos_mapped_readable(c, s, offset + i)
}

/// Whether a block reads depends only on the geometry, which writes keep.
proof fn lemma_overwrite_kept(a: Context, b: Context, s: Seq<ExtentLeaf>, offset: int, n: int)
    requires
        b.unchanged_but_dev(a),
        overwrite_ok(a, s, offset, n),
    ensures
        overwrite_ok(b, s, offset, n),
        bytes_readable(b, s, offset, n),
{
    reveal(bytes_readable);
    assert forall|i: int| 0 <= i < n implies #[trigger] pos_mapped_readable(b, s, offset + i) by {
        assert(pos_mapped_readable(a, s, offset + i));
    }
    assert forall|i: int| 0 <= i < n implies #[trigger] file_byte(b, s, offset + i) is Some by {
        assert(pos_mapped_readable(b, s, offset + i));
    }
}

/// A block that reads can be written over with a block's worth of bytes.
proof fn lemma_block_writable(c: Context, p: int, data: Seq<u8>)
    requires
        c.wf(),
        block_read(c, p) is Ok,
        !c.dev.spec_read_only(),
        data.len() == c.block_size,
    ensures
        blocks_write(c, p, data) is Ok,
{
    super::io::lemma_div_self(c.block_size as int);
}

/// How many bytes a read of `len` bytes at `offset` gives from a file of `size` bytes.
pub open spec fn read_len(size: usize, offset: usize, len: int) -> int {
    if offset >= size { 0 } else if len < size - offset { len } else { size - offset }
}

/// Leaves before `j` end at or before `l`.
pub open spec fn passed(s: Seq<ExtentLeaf>, j: int, l: int) -> bool {
    forall|k: int| 0 <= k < j ==> #[trigger] ext_end(s[k]) <= l
}

/// In a valid list, a lookup of `l` may skip the leaves that end at or before it.
proof fn lemma_find_skip(s: Seq<ExtentLeaf>, j: int, l: u32, cu: bool)
    requires
        valid_extents(s),
        0 <= j <= s.len(),
        passed(s, j, l as int),
    ensures
        find_spec(s, l, cu) == find_spec(s.skip(j), l, cu),
    decreases j,
{
    if j > 0 {
        let t = s.drop_first();
        assert(valid_extents(t)) by {
            assert forall|i: int| 0 <= i < t.len() implies wf_leaf(#[trigger] t[i]) && leaf_end(t[i]) <= u32::MAX by {
                assert(t[i] == s[i + 1]);
            }
            assert forall|a: int, b: int| #![trigger t[a], t[b]] 0 <= a < b < t.len() implies leaf_end(t[a]) <= t[b].ee_block by {
                assert(t[a] == s[a + 1] && t[b] == s[b + 1]);
            }
        }
        assert(passed(t, j - 1, l as int)) by {
            assert forall|k: int| 0 <= k < j - 1 implies #[trigger] ext_end(t[k]) <= l by {
                assert(t[k] == s[k + 1]);
                assert(ext_end(s[k + 1]) <= l);
            }
        }
        lemma_find_skip(t, j - 1, l, cu);
        assert(t.skip(j - 1) =~= s.skip(j));
        assert(ext_end(s[0]) <= l);
        assert(wf_leaf(s[0]));
    } else {
        assert(s.skip(0) =~= s);
    }
}

/// The cursor comes to rest past every leaf that ends at or before `l`.
proof fn lemma_cursor(s: Seq<ExtentLeaf>, i: int, l: int)
    requires
        valid_extents(s),
        0 <= i <= s.len(),
        passed(s, i, l),
    ensures
        i <= cursor_after(s, i, l) <= s.len(),
        passed(s, cursor_after(s, i, l), l),
        cursor_after(s, i, l) < s.len() ==> l < ext_end(s[cursor_after(s, i, l)]),
    decreases s.len() - i,
{
    if i < s.len() {
        assert(wf_leaf(s[i]) && leaf_end(s[i]) <= u32::MAX);
        if !(l < ext_end(s[i])) {
            assert(passed(s, i + 1, l));
            lemma_cursor(s, i + 1, l);
        }
    }
}

/// At the cursor for `l` in a valid list: the leaf there, if it covers `l`, maps every block
/// from `l` to its end; if not, the blocks from `l` up to it are holes.
proof fn lemma_at_cursor(s: Seq<ExtentLeaf>, j: int, l: u32, m: u32)
    requires
        valid_extents(s),
        0 <= j <= s.len(),
        passed(s, j, l as int),
        j < s.len() ==> l < ext_end(s[j]),
        l <= m,
    ensures
        m == l ==> pblk_at_cursor(s, j, l as int, true) == find_spec(s, l, true),
        leaf_at_cursor(s, j, l as int, true) matches Some(e) ==> (m < ext_end(e) ==>
            find_spec(s, m, true) == Some((e.ee_start + (m - e.ee_block)) as u64)),
        leaf_at_cursor(s, j, l as int, true) is None && m < hole_len(s, j, l as int) + l ==> find_spec(s, m, true) is None,
{
    assert(passed(s, j, m as int));
    lemma_find_skip(s, j, l, true);
    lemma_find_skip(s, j, m, true);
    if j < s.len() {
        assert(s.skip(j)[0] == s[j]);
        assert(wf_leaf(s[j]));
    }
}

/// The `t`-th byte of a run of whole blocks starting at block `p0` lies in block `p0 + t / bs`.
proof fn lemma_block_of_run(c: Context, p0: int, t: int, n: int)
    requires
        c.wf(),
        p0 >= 0,
        0 <= t < n,
        n % (c.block_size as int) == 0,
        p0 + n / (c.block_size as int) <= c.blocks_count,
        p0 * c.block_size <= u64::MAX,
        p0 * c.block_size + n <= c.dev@.len(),
        c.dev@.len() <= usize::MAX,
    ensures
        block_read(c, p0 + t / (c.block_size as int)) == Ok::<Seq<u8>, Errno>(c.dev@.subrange(
            (p0 + t / (c.block_size as int)) * c.block_size, (p0 + t / (c.block_size as int)) * c.block_size + c.block_size)),
        (p0 + t / (c.block_size as int)) * c.block_size + t % (c.block_size as int) == p0 * c.block_size + t,
{
    let bs = c.block_size as int;
    let q = t / bs;
    assert(t == q * bs + t % bs && 0 <= t % bs < bs) by (nonlinear_arith)
        requires
            bs > 0,
            q == t / bs,
    {
    }
    assert(q < n / bs) by (nonlinear_arith)
        requires
            bs > 0,
            q == t / bs,
            t < n,
            n % bs == 0,
            0 <= t,
    {
        assert(n == (n / bs) * bs);
    }
    assert((p0 + q) * bs == p0 * bs + q * bs) by (nonlinear_arith);
    assert(q * bs + bs <= n) by (nonlinear_arith)
        requires
            q < n / bs,
            n % bs == 0,
            bs > 0,
            n >= 0,
    {
        assert(n == (n / bs) * bs);
        assert((q + 1) * bs <= (n / bs) * bs);
    }
    assert(0 <= q);
}

/// Reads up to `buf.len()` bytes of the file at `offset` into `buf`: nothing at or past the
/// end, holes as zeros, mapped blocks from the device, whole blocks in runs where possible.
/// Inline data is `EOPNOTSUPP`; a block number past 32 bits is `EFBIG`.
#[verifier::rlimit(100)]
#[verifier::spinoff_prover]
pub fn read_raw_at_locked(context: &Context, inode: &Ext4Inode, buf: &mut Vec<u8>, offset: usize) -> (r: SysResult<usize>)
    requires
        context.wf(),
        inode.raw@.len() >= INODE_BLOCK_ARRAY_OFF + INODE_BLOCK_ARRAY_SIZE,
    ensures
        final(buf)@.len() == old(buf)@.len(),
        r matches Ok(n) ==> forall|i: int| n <= i < old(buf)@.len() ==> #[trigger] final(buf)@[i] == old(buf)@[i],
        r matches Ok(n) ==> n == read_len(inode.i_size as usize, offset, old(buf)@.len() as int),
        read_len(inode.i_size as usize, offset, old(buf)@.len() as int) == 0 ==> r == Ok::<usize, Errno>(0),
        read_len(inode.i_size as usize, offset, old(buf)@.len() as int) > 0 && has_bits(inode.i_flags, INODE_FLAG_INLINE_DATA)
            ==> r == Err::<usize, Errno>(Errno::EOPNOTSUPP),
        r matches Ok(n) ==> (n > 0 && has_bits(inode.i_flags, INODE_FLAG_EXTENTS) ==> (snapshot_spec(*context, inode.ino, *inode) matches Ok(s)
            && (valid_extents(s.1) ==> forall|i: int| 0 <= i < n ==> file_byte(*context, s.1, offset + i)
                == Some(#[trigger] final(buf)@[i])))),
        ({
            let n = read_len(inode.i_size as usize, offset, old(buf)@.len() as int);
            &&& n > 0 && !has_bits(inode.i_flags, INODE_FLAG_INLINE_DATA) && has_bits(inode.i_flags, INODE_FLAG_EXTENTS)
                && extent_read_ok(*context, *inode, offset as int, n) ==> r is Ok
            &&& n > 0 && !has_bits(inode.i_flags, INODE_FLAG_INLINE_DATA) && has_bits(inode.i_flags, INODE_FLAG_EXTENTS)
                ==> (snapshot_spec(*context, inode.ino, *inode) matches Err(e) ==> r == Err::<usize, Errno>(e))
            &&& n > 0 && !has_bits(inode.i_flags, INODE_FLAG_INLINE_DATA) && !has_bits(inode.i_flags, INODE_FLAG_EXTENTS) ==> {
                &&& (forall|i: int| 0 <= i < n ==> #[trigger] block_mapped_byte(*context, *inode, offset + i) is Ok) ==> r is Ok
                &&& r is Ok ==> forall|i: int| 0 <= i < n ==> block_mapped_byte(*context, *inode, offset + i)
                    == Ok::<u8, Errno>(#[trigger] final(buf)@[i])
            }
        }),
{
    let file_size = inode.i_size as usize;
    if offset >= file_size {
        return Ok(0);
    }
    let to_read = if buf.len() < file_size - offset { buf.len() } else { file_size - offset };
    if to_read == 0 {
        return Ok(0);
    }
    if flags_contain(inode.i_flags, INODE_FLAG_INLINE_DATA) {
        return Err(Errno::EOPNOTSUPP);
    }
    if !flags_contain(inode.i_flags, INODE_FLAG_EXTENTS) {
        return read_block_mapped(context, inode, buf, offset, to_read);
    }
    let bs = context.block_size as usize;
    let ghost h = extent_read_ok(*context, *inode, offset as int, to_read as int);
    let (_, extents, _) = context.extent_tree_snapshot(inode.ino, inode)?;
    proof {
        lemma_snapshot_starts48(*context, inode.ino, *inode);
    }
    let ghost s = extents@;
    let ghost valid = valid_extents(s);
    let ghost old_len = buf@.len();
    let mut out: Vec<u8> = vec![0u8; to_read];
    let _dev_len = context.dev.size();
    let mut copied: usize = 0;
    let mut extent_idx: usize = 0;
    while copied < to_read
        invariant
            context.wf(),
            bs == context.block_size,
            bs > 0,
            s == extents@,
            pends_bounded(s),
            valid == valid_extents(s),
            offset + to_read <= usize::MAX,
            to_read <= old_len,
            buf@.len() == old_len,
            out@.len() == to_read,
            old_len == old(buf)@.len(),
            to_read as int == read_len(inode.i_size as usize, offset, old(buf)@.len() as int),
            to_read > 0,
            !has_bits(inode.i_flags, INODE_FLAG_INLINE_DATA),
            has_bits(inode.i_flags, INODE_FLAG_EXTENTS),
            snapshot_spec(*context, inode.ino, *inode) matches Ok(sn) && sn.1 == s,
            copied <= to_read,
            extent_idx <= s.len(),
            context.dev@.len() <= usize::MAX,
            valid ==> passed(s, extent_idx as int, (offset + copied) / (bs as int)),
            valid ==> forall|i: int| 0 <= i < copied ==> file_byte(*context, s, offset + i) == Some(#[trigger] out@[i]),
            h == extent_read_ok(*context, *inode, offset as int, to_read as int),
            h ==> valid,
        decreases to_read - copied,
    {
        let file_off = offset + copied;
        let lblk_usize = file_off / bs;
        if lblk_usize > 0xFFFF_FFFFusize {
            proof {
                if h {
                    assert(file_off as int / (bs as int) <= (offset + to_read - 1) / (bs as int)) by (nonlinear_arith)
                        requires
                            file_off <= offset + to_read - 1,
                            bs > 0,
                    {
                        vstd::arithmetic::div_mod::lemma_div_is_ordered(file_off as int, offset + to_read - 1, bs as int);
                    }
                }
            }
            return Err(Errno::EFBIG);
        }
        let lblk = lblk_usize as u32;
        let in_block = file_off % bs;
        let remaining = to_read - copied;
        let ghost idx0 = extent_idx;
        advance_extent_cursor(extents.as_slice(), &mut extent_idx, lblk);
        proof {
            if valid {
                lemma_cursor(s, idx0 as int, lblk as int);
            }
        }
        let ghost j = extent_idx as int;
        let ghost base = out@;
        if in_block == 0 {
            match mapped_extent_for_read(extents.as_slice(), extent_idx, lblk) {
                Some(extent) => {
                    let full_blocks = full_block_run_len(extent, lblk, remaining, bs);
                    if full_blocks != 0 {
                        let start_pblk = extent.ee_start + (lblk - extent.ee_block) as u64;
                        proof {
                            assert(full_blocks * bs <= remaining) by (nonlinear_arith)
                                requires
                                    (full_blocks as int) <= (remaining as int) / (bs as int),
                                    bs > 0,
                            {
                            }
                        }
                        let byte_len = full_blocks * bs;
                        let mut tmp: Vec<u8> = vec![0u8; byte_len];
                        proof {
                            if h {
                                lemma_run_readable(*context, s, offset as int, to_read as int, j, lblk, copied as int,
                                    full_blocks as int, start_pblk as int);
                            }
                        }
                        context.read_fs_blocks_into(start_pblk, &mut tmp)?;
                        copy_into(&mut out, copied, tmp.as_slice());
                        proof {
                            if valid {
                                assert forall|i: int| 0 <= i < copied + byte_len implies file_byte(*context, s, offset + i)
                                    == Some(#[trigger] out@[i]) by {
                                    if i < copied {
                                        assert(out@[i] == base[i]);
                                    } else {
                                        let t = i - copied;
                                        assert(out@[i] == tmp@[t]);
                                        lemma_block_of_run(*context, start_pblk as int, t, byte_len as int);
                                        let q = t / (bs as int);
                                        assert((offset + i) / (bs as int) == lblk + q && (offset + i) % (bs as int) == t % (bs as int))
                                            by (nonlinear_arith)
                                            requires
                                                offset + copied == lblk * bs,
                                                i == copied + t,
                                                q == t / (bs as int),
                                                bs > 0,
                                                t >= 0,
                                        {
                                            assert(t == q * bs + t % (bs as int));
                                            assert(offset + i == (lblk + q) * bs + t % (bs as int));
                                        }
                                        assert(q < full_blocks) by (nonlinear_arith)
                                            requires
                                                q == t / (bs as int),
                                                t < full_blocks * bs,
                                                bs > 0,
                                                t >= 0,
                                        {
                                        }
                                        lemma_at_cursor(s, j, lblk, (lblk + q) as u32);
                                    }
                                }
                                assert(passed(s, j, (offset + copied + byte_len) / (bs as int))) by {
                                    assert((offset + copied + byte_len) / (bs as int) >= lblk) by (nonlinear_arith)
                                        requires
                                            offset + copied == lblk * bs,
                                            byte_len >= 0,
                                            bs > 0,
                                    {
                                    }
                                }
                            }
                        }
                        copied += byte_len;
                        continue;
                    }
                },
                None => {
                    let hole_blocks = hole_run_blocks(extents.as_slice(), extent_idx, lblk);
                    let whole = remaining / bs;
                    let full_blocks = if whole < hole_blocks { whole } else { hole_blocks };
                    if full_blocks != 0 {
                        proof {
                            assert(full_blocks * bs <= remaining) by (nonlinear_arith)
                                requires
                                    (full_blocks as int) <= (remaining as int) / (bs as int),
                                    bs > 0,
                            {
                            }
                        }
                        let byte_len = full_blocks * bs;
                        fill_zero(&mut out, copied, copied + byte_len);
                        proof {
                            if valid {
                                assert forall|i: int| 0 <= i < copied + byte_len implies file_byte(*context, s, offset + i)
                                    == Some(#[trigger] out@[i]) by {
                                    if i < copied {
                                        assert(out@[i] == base[i]);
                                    } else {
                                        let t = i - copied;
                                        let q = t / (bs as int);
                                        assert((offset + i) / (bs as int) == lblk + q) by (nonlinear_arith)
                                            requires
                                                offset + copied == lblk * bs,
                                                i == copied + t,
                                                q == t / (bs as int),
                                                bs > 0,
                                                t >= 0,
                                        {
                                            assert(t == q * bs + t % (bs as int));
                                            assert(offset + i == (lblk + q) * bs + t % (bs as int));
                                        }
                                        assert(q < full_blocks) by (nonlinear_arith)
                                            requires
                                                q == t / (bs as int),
                                                t < full_blocks * bs,
                                                bs > 0,
                                                t >= 0,
                                        {
                                        }
                                        if lblk + q <= u32::MAX {
                                            lemma_at_cursor(s, j, lblk, (lblk + q) as u32);
                                        }
                                    }
                                }
                                assert(passed(s, j, (offset + copied + byte_len) / (bs as int))) by {
                                    assert((offset + copied + byte_len) / (bs as int) >= lblk) by (nonlinear_arith)
                                        requires
                                            offset + copied == lblk * bs,
                                            byte_len >= 0,
                                            bs > 0,
                                    {
                                    }
                                }
                            }
                        }
                        copied += byte_len;
                        continue;
                    }
                },
            }
        }
        let chunk = if remaining < bs - in_block { remaining } else { bs - in_block };
        match mapped_read_pblk(extents.as_slice(), extent_idx, lblk) {
            Some(pblk) => {
                proof {
                    if h {
                        lemma_at_cursor(s, j, lblk, lblk);
                        assert(file_off as int / (bs as int) == lblk);
                        assert(file_byte(*context, s, offset + copied) is Some) by {
                            reveal(bytes_readable);
                        }
                    }
                }
                let data = context.read_fs_block(pblk)?;
                let piece = crate::bytes::copy_range(data.as_slice(), in_block, in_block + chunk);
                copy_into(&mut out, copied, piece.as_slice());
                proof {
                    if valid {
                        lemma_at_cursor(s, j, lblk, lblk);
                        assert forall|i: int| 0 <= i < copied + chunk implies file_byte(*context, s, offset + i)
                            == Some(#[trigger] out@[i]) by {
                            if i < copied {
                                assert(out@[i] == base[i]);
                            } else {
                                let t = i - copied;
                                assert(out@[i] == piece@[t]);
                                assert((offset + i) / (bs as int) == lblk && (offset + i) % (bs as int) == in_block + t)
                                    by (nonlinear_arith)
                                    requires
                                        offset + copied == lblk * bs + in_block,
                                        i == copied + t,
                                        0 <= t,
                                        in_block + t < bs,
                                        0 <= in_block,
                                {
                                }
                            }
                        }
                    }
                }
            },
            None => {
                fill_zero(&mut out, copied, copied + chunk);
                proof {
                    if valid {
                        lemma_at_cursor(s, j, lblk, lblk);
                        assert forall|i: int| 0 <= i < copied + chunk implies file_byte(*context, s, offset + i)
                            == Some(#[trigger] out@[i]) by {
                            if i < copied {
                                assert(out@[i] == base[i]);
                            } else {
                                let t = i - copied;
                                assert((offset + i) / (bs as int) == lblk) by (nonlinear_arith)
                                    requires
                                        offset + copied == lblk * bs + in_block,
                                        i == copied + t,
                                        0 <= t,
                                        in_block + t < bs,
                                        0 <= in_block,
                                {
                                }
                            }
                        }
                    }
                }
            },
        }
        proof {
            if valid {
                assert(passed(s, j, (offset + copied + chunk) / (bs as int))) by {
                    assert((offset + copied + chunk) / (bs as int) >= lblk) by (nonlinear_arith)
                        requires
                            offset + copied == lblk * bs + in_block,
                            chunk >= 0,
                            in_block >= 0,
                            bs > 0,
                    {
                    }
                }
            }
        }
        copied += chunk;
    }
    copy_into(buf, 0, out.as_slice());
    proof {
        assert forall|i: int| 0 <= i < copied implies #[trigger] buf@[i] == out@[i] by {}
        assert forall|i: int| copied <= i < old_len implies #[trigger] buf@[i] == old(buf)@[i] by {}
    }
    Ok(copied)
}

/// A run of `count` whole mapped blocks from the cursor, met by a read that can be served,
/// lies on the device: the run read succeeds.
proof fn lemma_run_readable(c: Context, s: Seq<ExtentLeaf>, offset: int, n: int, j: int, lblk: u32, copied: int,
    count: int, start: int)
    requires
        c.wf(),
        valid_extents(s),
        0 <= j <= s.len(),
        passed(s, j, lblk as int),
        j < s.len() ==> lblk < ext_end(s[j]),
        leaf_at_cursor(s, j, lblk as int, true) matches Some(e) && start == e.ee_start + (lblk - e.ee_block)
            && lblk + count <= ext_end(e) && e.ee_start + ext_len(e.ee_len_raw) <= u64::MAX,
        0 <= copied,
        offset + copied == lblk * c.block_size,
        count >= 1,
        copied + count * c.block_size <= n,
        bytes_readable(c, s, offset, n),
    ensures
        start + count <= c.blocks_count,
        start * c.block_size <= u64::MAX,
        start * c.block_size <= usize::MAX,
        start * c.block_size + count * c.block_size <= c.dev@.len(),
{
    reveal(bytes_readable);
    let bs = c.block_size as int;
    let e = leaf_at_cursor(s, j, lblk as int, true)->Some_0;
    lemma_at_cursor(s, j, lblk, lblk);
    lemma_at_cursor(s, j, lblk, (lblk + count - 1) as u32);
    assert(copied < n) by (nonlinear_arith)
        requires
            copied + count * bs <= n,
            count >= 1,
            bs > 0,
    {
    }
    assert(file_byte(c, s, offset + copied) is Some);
    assert((offset + copied) / bs == lblk) by (nonlinear_arith)
        requires
            offset + copied == lblk * bs,
            bs > 0,
    {
    }
    let last = offset + copied + (count - 1) * bs;
    assert(last - offset < n) by (nonlinear_arith)
        requires
            copied + count * bs <= n,
            last == offset + copied + (count - 1) * bs,
            bs > 0,
    {
    }
    assert(file_byte(c, s, offset + (last - offset)) is Some);
    assert(last / bs == lblk + count - 1) by (nonlinear_arith)
        requires
            offset + copied == lblk * bs,
            last == offset + copied + (count - 1) * bs,
            bs > 0,
    {
    }
    assert(block_read(c, start) is Ok);
    assert(block_read(c, start + count - 1) is Ok);
    assert((start + count - 1) * bs + bs == start * bs + count * bs) by (nonlinear_arith);
}

/// Reads a file whose block array is no extent tree: block by block, each looked up in the
/// tree that its block array is taken to hold.
#[verifier::rlimit(100)]
#[verifier::spinoff_prover]
fn read_block_mapped(context: &Context, inode: &Ext4Inode, buf: &mut Vec<u8>, offset: usize, to_read: usize)
    -> (r: SysResult<usize>)
    requires
        context.wf(),
        inode.raw@.len() >= INODE_BLOCK_ARRAY_OFF + INODE_BLOCK_ARRAY_SIZE,
        to_read <= old(buf)@.len(),
        offset + to_read <= usize::MAX,
    ensures
        final(buf)@.len() == old(buf)@.len(),
        r matches Ok(n) ==> n == to_read,
        r is Ok ==> forall|i: int| 0 <= i < to_read ==> block_mapped_byte(*context, *inode, offset + i)
            == Ok::<u8, Errno>(#[trigger] final(buf)@[i]),
        forall|i: int| to_read <= i < old(buf)@.len() ==> #[trigger] final(buf)@[i] == old(buf)@[i],
        (forall|i: int| 0 <= i < to_read ==> #[trigger] block_mapped_byte(*context, *inode, offset + i) is Ok) ==> r is Ok,
        r matches Err(e) ==> exists|i: int| 0 <= i < to_read && #[trigger] block_mapped_byte(*context, *inode, offset + i)
            == Err::<u8, Errno>(e),
{
    let bs = context.block_size as usize;
    let mut copied: usize = 0;
    while copied < to_read
        invariant
            context.wf(),
            bs == context.block_size,
            bs > 0,
            inode.raw@.len() >= INODE_BLOCK_ARRAY_OFF + INODE_BLOCK_ARRAY_SIZE,
            offset + to_read <= usize::MAX,
            to_read <= buf@.len(),
            buf@.len() == old(buf)@.len(),
            copied <= to_read,
            forall|i: int| 0 <= i < copied ==> block_mapped_byte(*context, *inode, offset + i)
                == Ok::<u8, Errno>(#[trigger] buf@[i]),
            forall|i: int| copied <= i < buf@.len() ==> #[trigger] buf@[i] == old(buf)@[i],
        decreases to_read - copied,
    {
        let file_off = offset + copied;
        let lblk_usize = file_off / bs;
        let ghost base = buf@;
        if lblk_usize > 0xFFFF_FFFFusize {
            assert(block_mapped_byte(*context, *inode, offset + copied) == Err::<u8, Errno>(Errno::EFBIG));
            return Err(Errno::EFBIG);
        }
        let lblk = lblk_usize as u32;
        let in_block = file_off % bs;
        let remaining = to_read - copied;
        let chunk = if remaining < bs - in_block { remaining } else { bs - in_block };
        proof {
            assert(file_off == lblk * bs + in_block) by (nonlinear_arith)
                requires
                    lblk == file_off / bs,
                    in_block == file_off % bs,
                    bs > 0,
            {
            }
        }
        let found = match lookup_inode_lblk(context, inode, lblk) {
            Ok(f) => f,
            Err(e) => {
                assert(block_mapped_byte(*context, *inode, offset + copied) == Err::<u8, Errno>(e));
                return Err(e);
            },
        };
        match found {
            Some(pblk) => {
                let data = match context.read_fs_block(pblk) {
                    Ok(d) => d,
                    Err(e) => {
                        assert(block_mapped_byte(*context, *inode, offset + copied) == Err::<u8, Errno>(e));
                        return Err(e);
                    },
                };
                proof {
                    assert(data@.len() == bs);
                }
                let piece = crate::bytes::copy_range(data.as_slice(), in_block, in_block + chunk);
                copy_into(buf, copied, piece.as_slice());
                proof {
                    assert forall|i: int| 0 <= i < copied + chunk implies block_mapped_byte(*context, *inode, offset + i)
                        == Ok::<u8, Errno>(#[trigger] buf@[i]) by {
                        if i >= copied {
                            let t = i - copied;
                            assert(buf@[i] == piece@[t]);
                            assert((file_off + t) / (bs as int) == lblk && (file_off + t) % (bs as int) == in_block + t)
                                by (nonlinear_arith)
                                requires
                                    file_off == lblk * bs + in_block,
                                    0 <= t,
                                    in_block + t < bs,
                                    0 <= in_block,
                            {
                            }
                        } else {
                            assert(buf@[i] == base[i]);
                        }
                    }
                }
            },
            None => {
                fill_zero(buf, copied, copied + chunk);
                proof {
                    assert forall|i: int| 0 <= i < copied + chunk implies block_mapped_byte(*context, *inode, offset + i)
                        == Ok::<u8, Errno>(#[trigger] buf@[i]) by {
                        if i >= copied {
                            let t = i - copied;
                            assert((file_off + t) / (bs as int) == lblk) by (nonlinear_arith)
                                requires
                                    file_off == lblk * bs + in_block,
                                    0 <= t,
                                    in_block + t < bs,
                                    0 <= in_block,
                            {
                            }
                        } else {
                            assert(buf@[i] == base[i]);
                        }
                    }
                }
            },
        }
        copied += chunk;
    }
    Ok(copied)
}

/// What the lookup of logical block `lblk` in the tree an inode's block array holds gives.
pub open spec fn inode_lblk_lookup(c: Context, inode: Ext4Inode, lblk: u32) -> Result<Option<u64>, Errno> {
    let root = super::tree::root_bytes(inode);
    match super::extent::extent_parse_error(root, true, c.block_size as int) {
        Some(e) => Err(e),
        None => super::lookup::lookup_spec(c, inode.ino, inode.i_generation, super::extent::header_of(root).eh_depth,
            super::extent::idxs_of(root), super::extent::leaves_of(root), lblk, true),
    }
}

/// The byte at `pos` of a file read block by block through the lookup of each logical block:
/// zero in a hole, the block's byte where mapped, or the error of the lookup or the read.
pub open spec fn block_mapped_byte(c: Context, inode: Ext4Inode, pos: int) -> Result<u8, Errno> {
    let bs = c.block_size as int;
    let lblk = pos / bs;
    if lblk > u32::MAX {
        Err(Errno::EFBIG)
    } else {
        match inode_lblk_lookup(c, inode, lblk as u32) {
            Err(e) => Err(e),
            Ok(None) => Ok(0u8),
            Ok(Some(p)) => match block_read(c, p as int) {
                Ok(b) => Ok(b[pos % bs]),
                Err(e) => Err(e),
            },
        }
    }
}

/// The physical block of logical block `lblk` of the inode, looked up in the tree its block
/// array holds; blocks of uninitialised extents are unmapped.
pub fn lookup_inode_lblk(context: &Context, inode: &Ext4Inode, lblk: u32) -> (r: SysResult<Option<u64>>)
    requires
        context.wf(),
        inode.raw@.len() >= INODE_BLOCK_ARRAY_OFF + INODE_BLOCK_ARRAY_SIZE,
    ensures
        ({
            let root = super::tree::root_bytes(*inode);
            let h = super::extent::header_of(root);
            match super::extent::extent_parse_error(root, true, context.block_size as int) {
                Some(e) => r == Err::<Option<u64>, Errno>(e),
                None => r == super::lookup::lookup_spec(*context, inode.ino, inode.i_generation, h.eh_depth,
                    super::extent::idxs_of(root), super::extent::leaves_of(root), lblk, true),
            }
        }),
{
    let root = context.parse_extent_root(inode)?;
    proof {
        super::tree::lemma_leaves_of_starts48(super::tree::root_bytes(*inode));
        assert forall|i: int| 0 <= i < root.leaf@.len() implies #[trigger] root.leaf@[i].ee_start
            + ext_len(root.leaf@[i].ee_len_raw) <= u64::MAX by {
            assert(root.leaf@[i].ee_start < 0x1_0000_0000_0000);
        }
    }
    proof {
        let rb = super::tree::root_bytes(*inode);
        assert(root.header == super::extent::header_of(rb));
        if root.header.eh_depth == 0 {
            assert(root.leaf@ == super::extent::leaves_of(rb));
        } else {
            assert(root.idx@ == super::extent::idxs_of(rb));
        }
    }
    super::lookup::lookup_lblk(context, root, inode.ino, inode.i_generation, lblk)
}


/// The most blocks taken for one hole in a single allocation.
pub const MAX_BULK_ALLOC_BLOCKS: usize = 128;

/// The total block count of a list of runs.
pub open spec fn seg_total(segs: Seq<(u64, usize)>) -> int
    decreases segs.len(),
{
    if segs.len() == 0 { 0 } else { seg_total(segs.drop_last()) + segs.last().1 }
}

/// Groups a list of blocks into runs of consecutive block numbers, in order.
pub fn coalesce_block_runs(allocated: &Vec<u64>) -> (r: Vec<(u64, usize)>)
    requires
        allocated@.len() > 0,
    ensures
        seg_total(r@) == allocated@.len(),
        forall|k: int| 0 <= k < r@.len() ==> (#[trigger] r@[k]).1 >= 1,
{
    let mut segments: Vec<(u64, usize)> = Vec::new();
    let mut seg_start = allocated[0];
    let mut seg_len: usize = 1;
    let mut i: usize = 1;
    while i < allocated.len()
        invariant
            1 <= i <= allocated@.len(),
            1 <= seg_len <= i,
            seg_total(segments@) + seg_len == i,
            forall|k: int| 0 <= k < segments@.len() ==> (#[trigger] segments@[k]).1 >= 1,
        decreases allocated@.len() - i,
    {
        let pblk = allocated[i];
        let contiguous = match seg_start.checked_add(seg_len as u64) {
            Some(next) => pblk == next,
            None => false,
        };
        if contiguous {
            seg_len += 1;
        } else {
            let ghost before = segments@;
            segments.push((seg_start, seg_len));
            proof {
                assert(segments@.drop_last() =~= before);
            }
            seg_start = pblk;
            seg_len = 1;
        }
        i += 1;
    }
    let ghost before = segments@;
    segments.push((seg_start, seg_len));
    proof {
        assert(segments@.drop_last() =~= before);
    }
    segments
}

impl Context {
    /// Takes `count` free blocks one after another; on a failure the blocks taken so far are
    /// returned and the error given.
    pub fn alloc_blocks(&mut self, count: usize) -> (r: SysResult<Vec<u64>>)
        requires
            old(self).wf(),
        ensures
            final(self).unchanged_but_dev(*old(self)),
            r matches Ok(v) ==> v@.len() == count && forall|k: int| 0 <= k < count ==> (#[trigger] v@[k]) < old(self).blocks_count,
            count == 0 ==> (r matches Ok(v) && v@.len() == 0 && final(self).dev@ == old(self).dev@),
            count > 0 ==> match block_alloc_scan(*old(self), 0) {
                Err(e) => r == Err::<Vec<u64>, Errno>(e) && final(self).dev@ == old(self).dev@,
                Ok(None) => r == Err::<Vec<u64>, Errno>(Errno::ENOSPC) && final(self).dev@ == old(self).dev@,
                Ok(Some(p)) => r matches Ok(v) ==> v@[0] == (p.0 * old(self).blocks_per_group + old(self).first_data_block + p.1) as u64,
            },
    {
        let mut out: Vec<u64> = Vec::new();
        while out.len() < count
            invariant
                self.wf(),
                self.unchanged_but_dev(*old(self)),
                out@.len() <= count,
                forall|k: int| 0 <= k < out@.len() ==> (#[trigger] out@[k]) < old(self).blocks_count,
                out@.len() == 0 ==> *self == *old(self),
                out@.len() > 0 ==> (block_alloc_scan(*old(self), 0) matches Ok(Some(p))
                    && out@[0] == (p.0 * old(self).blocks_per_group + old(self).first_data_block + p.1) as u64),
            decreases count - out@.len(),
        {
            match self.alloc_block() {
                Ok(p) => {
                    let ghost before = out@;
                    out.push(p);
                    proof {
                        if before.len() > 0 {
                            assert(out@[0] == before[0]);
                        }
                    }
                },
                Err(e) => {
                    let ghost after_fail = *self;
                    let mut k: usize = 0;
                    while k < out.len()
                        invariant
                            self.wf(),
                            self.unchanged_but_dev(*old(self)),
                            out@.len() == 0 ==> *self == after_fail,
                        decreases out@.len() - k,
                    {
                        let _ = self.free_block(out[k]);
                        k += 1;
                    }
                    return Err(e);
                },
            }
        }
        Ok(out)
    }
}

/// Returns the blocks allocated since `new_allocated_start` and puts the leaves back as they
/// were.
fn rollback_newly_allocated(context: &mut Context, extents: &mut Vec<ExtentLeaf>, newly_allocated: &mut Vec<u64>,
    extents_before: &[ExtentLeaf], new_allocated_start: usize)
    requires
        old(context).wf(),
        new_allocated_start <= old(newly_allocated)@.len(),
    ensures
        final(context).unchanged_but_dev(*old(context)),
        final(extents)@ == extents_before@,
        final(newly_allocated)@ == old(newly_allocated)@.subrange(0, new_allocated_start as int),
{
    while newly_allocated.len() > new_allocated_start
        invariant
            context.wf(),
            context.unchanged_but_dev(*old(context)),
            new_allocated_start <= newly_allocated@.len(),
            newly_allocated@.subrange(0, new_allocated_start as int) == old(newly_allocated)@.subrange(0, new_allocated_start as int),
        decreases newly_allocated@.len(),
    {
        let ghost before = newly_allocated@;
        match newly_allocated.pop() {
            Some(pblk) => {
                let _ = context.free_block(pblk);
            },
            None => {},
        }
        proof {
            assert(newly_allocated@.subrange(0, new_allocated_start as int) =~= before.subrange(0, new_allocated_start as int));
        }
    }
    proof {
        assert(newly_allocated@ =~= newly_allocated@.subrange(0, new_allocated_start as int));
    }
    *extents = vstd::slice::slice_to_vec(extents_before);
}

/// Logical block `l` is mapped to some block.
pub open spec fn has_map(s: Seq<ExtentLeaf>, l: int) -> bool {
    exists|p: int| maps_to(s, l, p)
}

/// Allocates `desired_blocks` blocks for the hole at `lblk` and maps them there in order;
/// gives how many and their runs of consecutive blocks. On a failure every block taken here
/// is returned and the leaves and cursor are put back.
fn allocate_full_block_run(context: &mut Context, extents: &mut Vec<ExtentLeaf>, extent_idx: &mut usize, lblk: u32,
    desired_blocks: usize, newly_allocated: &mut Vec<u64>) -> (r: SysResult<(usize, Vec<(u64, usize)>)>)
    requires
        old(context).wf(),
        pends_bounded(old(extents)@),
        *old(extent_idx) <= old(extents)@.len(),
    ensures
        final(context).unchanged_but_dev(*old(context)),
        pends_bounded(final(extents)@),
        *final(extent_idx) <= final(extents)@.len(),
        final(newly_allocated)@.len() >= old(newly_allocated)@.len(),
        final(newly_allocated)@.subrange(0, old(newly_allocated)@.len() as int) == old(newly_allocated)@,
        match r {
            Ok(p) => p.0 == desired_blocks && (desired_blocks > 0 ==> seg_total(p.1@) == desired_blocks)
                && forall|k: int| 0 <= k < p.1@.len() ==> (#[trigger] p.1@[k]).1 >= 1,
            Err(_) => final(extents)@ == old(extents)@ && *final(extent_idx) == *old(extent_idx)
                && final(newly_allocated)@ == old(newly_allocated)@,
        },
        desired_blocks == 0 ==> (r matches Ok(p) && p.0 == 0 && p.1@.len() == 0 && final(extents)@ == old(extents)@
            && final(context).dev@ == old(context).dev@),
        desired_blocks > 0 && lblk + desired_blocks - 1 > u32::MAX ==> r == Err::<(usize, Vec<(u64, usize)>), Errno>(Errno::EFBIG)
            && final(context).dev@ == old(context).dev@,
        r is Ok ==> (forall|t: int| 0 <= t < desired_blocks ==> #[trigger] has_map(final(extents)@, lblk + t))
            && (forall|l: int, p: int| maps_to(old(extents)@, l, p) ==> #[trigger] maps_to(final(extents)@, l, p)),
{
    if desired_blocks == 0 {
        assert(newly_allocated@.subrange(0, newly_allocated@.len() as int) =~= newly_allocated@);
        return Ok((0, Vec::new()));
    }
    if desired_blocks - 1 > 0xFFFF_FFFFusize {
        assert(newly_allocated@.subrange(0, newly_allocated@.len() as int) =~= newly_allocated@);
        return Err(Errno::EFBIG);
    }
    let last_block_idx = (desired_blocks - 1) as u32;
    if lblk.checked_add(last_block_idx).is_none() {
        assert(newly_allocated@.subrange(0, newly_allocated@.len() as int) =~= newly_allocated@);
        return Err(Errno::EFBIG);
    }
    let extents_before = vstd::slice::slice_to_vec(extents.as_slice());
    let extent_idx_before = *extent_idx;
    let new_allocated_start = newly_allocated.len();
    let mut allocated: Vec<u64> = Vec::new();
    while allocated.len() < desired_blocks
        invariant
            context.wf(),
            context.unchanged_but_dev(*old(context)),
            pends_bounded(extents@),
            extents_before@ == old(extents)@,
            pends_bounded(old(extents)@),
            *old(extent_idx) <= old(extents)@.len(),
            new_allocated_start == old(newly_allocated)@.len(),
            newly_allocated@.len() >= new_allocated_start,
            newly_allocated@.subrange(0, new_allocated_start as int) == old(newly_allocated)@,
            allocated@.len() <= desired_blocks,
            lblk + desired_blocks - 1 <= u32::MAX,
            extent_idx_before == *old(extent_idx),
            forall|t: int| 0 <= t < allocated@.len() ==> #[trigger] has_map(extents@, lblk + t),
            forall|l: int, p: int| maps_to(old(extents)@, l, p) ==> #[trigger] maps_to(extents@, l, p),
        decreases desired_blocks - allocated@.len(),
    {
        let batch = match context.alloc_blocks(desired_blocks - allocated.len()) {
            Ok(b) => b,
            Err(e) => {
                rollback_newly_allocated(context, extents, newly_allocated, extents_before.as_slice(), new_allocated_start);
                *extent_idx = extent_idx_before;
                return Err(e);
            },
        };
        let batch_start = allocated.len();
        let mut b: usize = 0;
        while b < batch.len()
            invariant
                context.wf(),
                context.unchanged_but_dev(*old(context)),
                pends_bounded(extents@),
                extents_before@ == old(extents)@,
                pends_bounded(old(extents)@),
                *old(extent_idx) <= old(extents)@.len(),
                new_allocated_start == old(newly_allocated)@.len(),
                newly_allocated@.len() >= new_allocated_start,
                newly_allocated@.subrange(0, new_allocated_start as int) == old(newly_allocated)@,
                batch@.len() == desired_blocks - batch_start,
                forall|k: int| 0 <= k < batch@.len() ==> (#[trigger] batch@[k]) < old(context).blocks_count,
                batch_start == allocated@.len(),
                b <= batch@.len(),
                lblk + desired_blocks - 1 <= u32::MAX,
                extent_idx_before == *old(extent_idx),
                old(context).blocks_count == context.blocks_count,
                forall|t: int| 0 <= t < allocated@.len() ==> #[trigger] has_map(extents@, lblk + t),
                forall|l: int, p: int| maps_to(old(extents)@, l, p) ==> #[trigger] maps_to(extents@, l, p),
            decreases batch@.len() - b,
        {
            let ghost nb = newly_allocated@;
            newly_allocated.push(batch[b]);
            proof {
                assert(newly_allocated@.subrange(0, new_allocated_start as int) =~= nb.subrange(0, new_allocated_start as int));
            }
            b += 1;
        }
        let mut k: usize = 0;
        while k < batch.len()
            invariant
                context.wf(),
                context.unchanged_but_dev(*old(context)),
                pends_bounded(extents@),
                extents_before@ == old(extents)@,
                pends_bounded(old(extents)@),
                *old(extent_idx) <= old(extents)@.len(),
                new_allocated_start == old(newly_allocated)@.len(),
                newly_allocated@.len() >= new_allocated_start,
                newly_allocated@.subrange(0, new_allocated_start as int) == old(newly_allocated)@,
                batch@.len() == desired_blocks - batch_start,
                forall|q: int| 0 <= q < batch@.len() ==> (#[trigger] batch@[q]) < old(context).blocks_count,
                batch_start == allocated@.len(),
                k <= batch@.len(),
                lblk + desired_blocks - 1 <= u32::MAX,
                extent_idx_before == *old(extent_idx),
                old(context).blocks_count == context.blocks_count,
                forall|t: int| 0 <= t < batch_start + k ==> #[trigger] has_map(extents@, lblk + t),
                forall|l: int, p: int| maps_to(old(extents)@, l, p) ==> #[trigger] maps_to(extents@, l, p),
            decreases batch@.len() - k,
        {
            let run_lblk = lblk + (batch_start + k) as u32;
            let pblk = batch[k];
            let ghost ext0 = extents@;
            match context.insert_extent_mapping(extents, run_lblk, pblk) {
                Ok(()) => {
                    proof {
                        assert(validate_from(ext0, None) is Ok && !mapped(ext0, run_lblk as int));
                        assert(maps_to(extents@, run_lblk as int, pblk as int));
                        assert(has_map(extents@, lblk + (batch_start + k)));
                        assert forall|t: int| 0 <= t < batch_start + k + 1 implies #[trigger] has_map(extents@, lblk + t) by {
                            if t < batch_start + k {
                                assert(has_map(ext0, lblk + t));
                                let p = choose|p: int| #[trigger] maps_to(ext0, lblk + t, p);
                                assert(maps_to(extents@, lblk + t, p));
                            }
                        }
                        assert forall|l: int, p: int| maps_to(old(extents)@, l, p) implies #[trigger] maps_to(extents@, l, p) by {
                            assert(maps_to(ext0, l, p));
                        }
                    }
                },
                Err(e) => {
                    rollback_newly_allocated(context, extents, newly_allocated, extents_before.as_slice(), new_allocated_start);
                    *extent_idx = extent_idx_before;
                    return Err(e);
                },
            }
            k += 1;
        }
        let mut q: usize = 0;
        while q < batch.len()
            invariant
                allocated@.len() == batch_start + q,
                q <= batch@.len(),
                batch@.len() == desired_blocks - batch_start,
                forall|t: int| 0 <= t < desired_blocks ==> #[trigger] has_map(extents@, lblk + t),
            decreases batch@.len() - q,
        {
            allocated.push(batch[q]);
            q += 1;
        }
    }
    *extent_idx = if extent_idx_before > 0 { extent_idx_before - 1 } else { 0 };
    if *extent_idx > extents.len() {
        *extent_idx = extents.len();
    }
    advance_extent_cursor(extents.as_slice(), extent_idx, lblk);
    let segments = coalesce_block_runs(&allocated);
    Ok((allocated.len(), segments))
}


/// Prefix sums of run lengths grow by each run and stay within the total.
proof fn lemma_seg_prefix(segs: Seq<(u64, usize)>, i: int)
    requires
        0 <= i <= segs.len(),
    ensures
        i < segs.len() ==> seg_total(segs.take(i)) + segs[i].1 == seg_total(segs.take(i + 1)),
        seg_total(segs.take(i)) <= seg_total(segs),
        seg_total(segs.take(i)) >= 0,
    decreases segs.len() - i,
{
    if i < segs.len() {
        assert(segs.take(i + 1).drop_last() =~= segs.take(i));
        lemma_seg_prefix(segs, i + 1);
    } else {
        assert(segs.take(i) =~= segs);
    }
    lemma_seg_nonneg(segs.take(i));
}

/// Run totals are never negative.
proof fn lemma_seg_nonneg(segs: Seq<(u64, usize)>)
    ensures
        seg_total(segs) >= 0,
    decreases segs.len(),
{
    if segs.len() > 0 {
        lemma_seg_nonneg(segs.drop_last());
    }
}

/// The part of `buf` that run `k` of `segs` takes, the runs taking consecutive parts from `start`.
pub open spec fn seg_data(bs: int, buf: Seq<u8>, start: int, segs: Seq<(u64, usize)>, k: int) -> Seq<u8> {
    let off = start + seg_total(segs.take(k)) * bs;
    buf.subrange(off, off + segs[k].1 * bs)
}

/// The device after the runs of `segs` were written in turn with their parts of `buf`.
pub open spec fn seg_store(dev: Seq<u8>, bs: int, buf: Seq<u8>, start: int, segs: Seq<(u64, usize)>) -> Seq<u8>
    decreases segs.len(),
{
    if segs.len() == 0 {
        dev
    } else {
        let k = segs.len() - 1;
        let prev = seg_store(dev, bs, buf, start, segs.drop_last());
        if segs[k].1 == 0 {
            prev
        } else {
            super::io::dev_store(prev, segs[k].0 * bs, seg_data(bs, buf, start, segs, k))
        }
    }
}

/// Every run of `segs` can be written with its part of `buf`.
pub open spec fn segs_writable(c: Context, buf: Seq<u8>, start: int, segs: Seq<(u64, usize)>) -> bool {
    forall|k: int| 0 <= k < segs.len() ==> #[trigger] blocks_write(c, segs[k].0 as int,
        seg_data(c.block_size as int, buf, start, segs, k)) is Ok
}

/// Whether a write succeeds does not depend on what the device holds.
proof fn lemma_blocks_write_ok_same(a: Context, b: Context, pblk: int, data: Seq<u8>)
    requires
        a.unchanged_but_dev(b),
    ensures
        blocks_write(a, pblk, data) is Ok <==> blocks_write(b, pblk, data) is Ok,
{
}

/// Writes consecutive parts of `buf`, from `start`, to the runs of blocks in turn.
fn write_segments(context: &mut Context, buf: &[u8], start: usize, segments: &Vec<(u64, usize)>) -> (r: SysResult<()>)
    requires
        old(context).wf(),
        start + seg_total(segments@) * old(context).block_size <= buf@.len(),
    ensures
        final(context).unchanged_but_dev(*old(context)),
        r is Ok ==> final(context).dev@ == seg_store(old(context).dev@, old(context).block_size as int, buf@, start as int,
            segments@),
        r is Ok <==> segs_writable(*old(context), buf@, start as int, segments@),
{
    let bs = context.block_size as usize;
    let _blen = buf.len();
    let mut buf_off = start;
    let mut i: usize = 0;
    while i < segments.len()
        invariant
            context.wf(),
            buf@.len() <= usize::MAX,
            context.unchanged_but_dev(*old(context)),
            bs == context.block_size,
            i <= segments@.len(),
            start + seg_total(segments@) * (bs as int) <= buf@.len(),
            buf_off == start + seg_total(segments@.take(i as int)) * (bs as int),
            context.dev@ == seg_store(old(context).dev@, bs as int, buf@, start as int, segments@.take(i as int)),
            forall|k: int| 0 <= k < i ==> #[trigger] blocks_write(*old(context), segments@[k].0 as int,
                seg_data(bs as int, buf@, start as int, segments@, k)) is Ok,
        decreases segments@.len() - i,
    {
        proof {
            lemma_seg_prefix(segments@, i as int);
            lemma_seg_prefix(segments@, i + 1);
            let a = seg_total(segments@.take(i as int));
            let b = seg_total(segments@.take(i + 1));
            let t = seg_total(segments@);
            assert(start + b * (bs as int) <= buf@.len()) by (nonlinear_arith)
                requires
                    b <= t,
                    start + t * (bs as int) <= buf@.len(),
                    bs > 0,
            {
            }
            assert(b * (bs as int) == a * (bs as int) + segments@[i as int].1 * (bs as int)) by (nonlinear_arith)
                requires
                    a + segments@[i as int].1 == b,
            {
            }
        }
        let (seg_start, block_count) = segments[i];
        proof {
            assert(block_count == segments@[i as int].1);
            assert(buf_off + (block_count as int) * (bs as int) <= buf@.len());
        }
        let byte_len = block_count * bs;
        let part = vstd::slice::slice_subrange(buf, buf_off, buf_off + byte_len);
        let ghost cur = *context;
        proof {
            assert(part@ == seg_data(bs as int, buf@, start as int, segments@, i as int));
            lemma_blocks_write_ok_same(cur, *old(context), seg_start as int, part@);
        }
        let w = context.write_fs_blocks(seg_start, part);
        proof {
            let t = segments@.take(i + 1);
            assert(t.drop_last() =~= segments@.take(i as int));
            assert(t[i as int] == segments@[i as int]);
            assert(seg_data(bs as int, buf@, start as int, t, i as int) == seg_data(bs as int, buf@, start as int, segments@, i as int)) by {
                assert(t.take(i as int) =~= segments@.take(i as int));
            }
        }
        if w.is_err() {
            proof {
                assert(!segs_writable(*old(context), buf@, start as int, segments@)) by {
                    assert(blocks_write(*old(context), segments@[i as int].0 as int,
                        seg_data(bs as int, buf@, start as int, segments@, i as int)) is Err);
                }
            }
            return w;
        }
        buf_off += byte_len;
        i += 1;
    }
    proof {
        assert(segments@.take(i as int) =~= segments@);
    }
    Ok(())
}

/// Writes one partial or whole block at `pblk`: a whole block directly, a part over the
/// block's current bytes (zeros for a block just allocated).
fn write_chunk(context: &mut Context, pblk: u64, in_block: usize, src: &[u8], new_block: bool) -> (r: SysResult<()>)
    requires
        old(context).wf(),
        in_block + src@.len() <= old(context).block_size,
    ensures
        final(context).unchanged_but_dev(*old(context)),
        ({
            let bs = old(context).block_size as int;
            if src@.len() == bs && in_block == 0 {
                wrote(*final(context), *old(context), r, blocks_write(*old(context), pblk as int, src@))
            } else if new_block {
                wrote(*final(context), *old(context), r, blocks_write(*old(context), pblk as int,
                    splice(Seq::new(bs as nat, |i: int| 0u8), in_block as int, src@)))
            } else {
                match block_read(*old(context), pblk as int) {
                    Ok(b) => wrote(*final(context), *old(context), r, blocks_write(*old(context), pblk as int,
                        splice(b, in_block as int, src@))),
                    Err(e) => r == Err::<(), Errno>(e) && final(context).dev@ == old(context).dev@,
                }
            }
        }),
{
    let bs = context.block_size as usize;
    if src.len() == bs && in_block == 0 {
        return context.write_fs_block(pblk, src);
    }
    let mut data: Vec<u8> = if new_block {
        let z = vec![0u8; bs];
        assert(z@ =~= Seq::new(bs as nat, |i: int| 0u8));
        z
    } else {
        context.read_fs_block(pblk)?
    };
    copy_into(&mut data, in_block, src);
    context.write_fs_block(pblk, data.as_slice())
}

/// The inode is `old` with only its record bytes, sector count and size changed.
pub open spec fn write_changed(new: Ext4Inode, old: Ext4Inode) -> bool {
    new == (Ext4Inode { raw: new.raw, i_blocks: new.i_blocks, i_size: new.i_size, ..old })
}

/// Writes `buf` block by block at `offset`, mapping holes to new blocks (whole-block holes in
/// runs of up to `MAX_BULK_ALLOC_BLOCKS`) and recording them in `extents` and
/// `newly_allocated`.
#[verifier::rlimit(100)]
#[verifier::spinoff_prover]
fn write_blocks_loop(context: &mut Context, buf: &[u8], offset: usize, extents: &mut Vec<ExtentLeaf>,
    newly_allocated: &mut Vec<u64>, extents_dirty: &mut bool) -> (r: SysResult<()>)
    requires
        old(context).wf(),
        pends_bounded(old(extents)@),
        offset + buf@.len() <= usize::MAX,
    ensures
        final(context).unchanged_but_dev(*old(context)),
        pends_bounded(final(extents)@),
        final(newly_allocated)@.len() >= old(newly_allocated)@.len(),
        final(newly_allocated)@.subrange(0, old(newly_allocated)@.len() as int) == old(newly_allocated)@,
        forall|l: int, p: int| maps_to(old(extents)@, l, p) ==> #[trigger] maps_to(final(extents)@, l, p),
        r is Ok ==> forall|pos: int| offset <= pos < offset + buf@.len()
            ==> #[trigger] has_map(final(extents)@, pos / (old(context).block_size as int)),
        buf@.len() == 0 ==> r is Ok && *final(context) == *old(context) && final(extents)@ == old(extents)@,
        overwrite_ok(*old(context), old(extents)@, offset as int, buf@.len() as int) ==> r is Ok
            && final(extents)@ == old(extents)@ && final(newly_allocated)@ == old(newly_allocated)@
            && *final(extents_dirty) == *old(extents_dirty),
{
    let bs = context.block_size as usize;
    let mut written: usize = 0;
    let mut extent_idx: usize = 0;
    let ghost h = overwrite_ok(*old(context), old(extents)@, offset as int, buf@.len() as int);
    let ghost s0 = old(extents)@;
    proof {
        assert(newly_allocated@.subrange(0, newly_allocated@.len() as int) =~= newly_allocated@);
    }
    while written < buf.len()
        invariant
            context.wf(),
            context.unchanged_but_dev(*old(context)),
            bs == context.block_size,
            bs > 0,
            pends_bounded(extents@),
            offset + buf@.len() <= usize::MAX,
            written <= buf@.len(),
            extent_idx <= extents@.len(),
            newly_allocated@.len() >= old(newly_allocated)@.len(),
            newly_allocated@.subrange(0, old(newly_allocated)@.len() as int) == old(newly_allocated)@,
            forall|l: int, p: int| maps_to(old(extents)@, l, p) ==> #[trigger] maps_to(extents@, l, p),
            forall|pos: int| offset <= pos < offset + written ==> #[trigger] has_map(extents@, pos / (bs as int)),
            written == 0 ==> *context == *old(context) && extents@ == old(extents)@,
            h == overwrite_ok(*old(context), s0, offset as int, buf@.len() as int),
            s0 == old(extents)@,
            h ==> extents@ == s0 && newly_allocated@ == old(newly_allocated)@ && *extents_dirty == *old(extents_dirty)
                && passed(s0, extent_idx as int, (offset + written) / (bs as int))
                && overwrite_ok(*context, s0, offset as int, buf@.len() as int),
        decreases buf@.len() - written,
    {
        let ghost ext0 = extents@;
        let ghost na0 = newly_allocated@;
        proof {
            if h {
                lemma_overwrite_kept(*context, *context, s0, offset as int, buf@.len() as int);
                assert(pos_mapped_readable(*context, s0, offset + written));
            }
        }
        let file_off = offset + written;
        let lblk_usize = file_off / bs;
        if lblk_usize > 0xFFFF_FFFFusize {
            return Err(Errno::EFBIG);
        }
        let lblk = lblk_usize as u32;
        let in_block = file_off % bs;
        proof {
            assert(file_off == lblk * bs + in_block) by (nonlinear_arith)
                requires
                    lblk == file_off as int / (bs as int),
                    in_block == file_off as int % (bs as int),
                    bs > 0,
            {
            }
        }
        let remaining = buf.len() - written;
        let ghost idx0 = extent_idx;
        advance_extent_cursor(extents.as_slice(), &mut extent_idx, lblk);
        let ghost j = extent_idx as int;
        proof {
            if h {
                lemma_cursor(s0, idx0 as int, lblk as int);
                lemma_at_cursor(s0, j, lblk, lblk);
                assert(file_off as int / (bs as int) == lblk);
                assert(leaf_at_cursor(s0, j, lblk as int, true) is Some);
            }
        }
        if in_block == 0 && remaining >= bs {
            match mapped_extent_for_write(extents.as_slice(), extent_idx, lblk) {
                Some(extent) => {
                    let full_blocks = full_block_run_len(extent, lblk, remaining, bs);
                    proof {
                        if h {
                            assert(ext_end(extent) <= u32::MAX);
                            assert(remaining as int / (bs as int) >= 1) by (nonlinear_arith)
                                requires
                                    remaining >= bs,
                                    bs > 0,
                            {
                            }
                        }
                    }
                    if full_blocks != 0 {
                        proof {
                            assert(full_blocks * bs <= remaining) by (nonlinear_arith)
                                requires
                                    (full_blocks as int) <= (remaining as int) / (bs as int),
                                    bs > 0,
                            {
                            }
                        }
                        let byte_len = full_blocks * bs;
                        let start_pblk = extent.ee_start + (lblk - extent.ee_block) as u64;
                        let part = vstd::slice::slice_subrange(buf, written, written + byte_len);
                        proof {
                            if h {
                                lemma_overwrite_kept(*context, *context, s0, offset as int, buf@.len() as int);
                                lemma_run_readable(*context, s0, offset as int, buf@.len() as int, j, lblk, written as int,
                                    full_blocks as int, start_pblk as int);
                                assert(part@.len() == full_blocks * bs);
                                assert(part@.len() as int / (bs as int) == full_blocks) by (nonlinear_arith)
                                    requires
                                        part@.len() == full_blocks * bs,
                                        bs > 0,
                                {
                                }
                                assert(part@.len() as int % (bs as int) == 0) by (nonlinear_arith)
                                    requires
                                        part@.len() == full_blocks * bs,
                                        bs > 0,
                                {
                                }
                            }
                        }
                        context.write_fs_blocks(start_pblk, part)?;
                        proof {
                            assert forall|pos: int| offset <= pos < offset + written + byte_len
                                implies #[trigger] has_map(extents@, pos / (bs as int)) by {
                                if pos >= offset + written {
                                    lemma_pos_in_run(file_off as int, lblk as int, bs as int, full_blocks as int, pos - file_off);
                                    let l = pos / (bs as int);
                                    let e = extents@[extent_idx as int];
                                    assert(leaf_maps(e, l, e.ee_start + (l - e.ee_block)));
                                    assert(maps_to(extents@, l, e.ee_start + (l - e.ee_block)));
                                }
                            }
                            if h {
                                lemma_overwrite_kept(*old(context), *context, s0, offset as int, buf@.len() as int);
                                assert((offset + written + byte_len) / (bs as int) >= lblk) by (nonlinear_arith)
                                    requires
                                        offset + written == lblk * bs,
                                        byte_len >= 0,
                                        bs > 0,
                                {
                                }
                            }
                        }
                        written += byte_len;
                        continue;
                    }
                },
                None => {
                    proof {
                        if h {
                            assert(leaf_at_cursor(s0, j, lblk as int, false) is Some);
                            assert(false);
                        }
                    }
                    let whole = remaining / bs;
                    let hole = hole_run_blocks(extents.as_slice(), extent_idx, lblk);
                    let mut desired_blocks = if whole < hole { whole } else { hole };
                    if desired_blocks > MAX_BULK_ALLOC_BLOCKS {
                        desired_blocks = MAX_BULK_ALLOC_BLOCKS;
                    }
                    if desired_blocks != 0 {
                        let (allocated_blocks, segments) = allocate_full_block_run(context, extents, &mut extent_idx, lblk,
                            desired_blocks, newly_allocated)?;
                        if allocated_blocks != 0 {
                            proof {
                                assert(desired_blocks * bs <= remaining) by (nonlinear_arith)
                                    requires
                                        (desired_blocks as int) <= (remaining as int) / (bs as int),
                                        bs > 0,
                                {
                                }
                            }
                            write_segments(context, buf, written, &segments)?;
                            *extents_dirty = true;
                            proof {
                                lemma_has_map_kept(ext0, extents@);
                                assert forall|pos: int| offset <= pos < offset + written + allocated_blocks * bs
                                    implies #[trigger] has_map(extents@, pos / (bs as int)) by {
                                    if pos >= offset + written {
                                        lemma_pos_in_run(file_off as int, lblk as int, bs as int, allocated_blocks as int,
                                            pos - file_off);
                                        assert(has_map(extents@, lblk + (pos - file_off) / (bs as int)));
                                    } else {
                                        assert(has_map(ext0, pos / (bs as int)));
                                    }
                                }
                                assert(newly_allocated@.subrange(0, old(newly_allocated)@.len() as int)
                                    =~= newly_allocated@.subrange(0, na0.len() as int).subrange(0, old(newly_allocated)@.len() as int));
                            }
                            written += allocated_blocks * bs;
                            continue;
                        }
                    }
                },
            }
        }
        let chunk = if remaining < bs - in_block { remaining } else { bs - in_block };
        let mut new_block = false;
        let ghost ext1 = extents@;
        let ghost na1 = newly_allocated@;
        let pblk = match mapped_write_pblk(extents.as_slice(), extent_idx, lblk) {
            Some(p) => {
                proof {
                    let e = extents@[extent_idx as int];
                    assert(leaf_maps(e, lblk as int, e.ee_start + (lblk - e.ee_block)));
                    assert(maps_to(extents@, lblk as int, e.ee_start + (lblk - e.ee_block)));
                    if h {
                        assert(find_spec(s0, lblk, true) == Some(p));
                        assert(block_read(*context, p as int) is Ok);
                    }
                }
                p
            },
            None => {
                proof {
                    if h {
                        assert(leaf_at_cursor(s0, j, lblk as int, false) is Some);
                        assert(false);
                    }
                }
                let new_pblk = context.alloc_block()?;
                match context.insert_extent_mapping(extents, lblk, new_pblk) {
                    Ok(()) => {
                        proof {
                            assert(validate_from(ext1, None) is Ok && !mapped(ext1, lblk as int));
                            assert(maps_to(extents@, lblk as int, new_pblk as int));
                        }
                    },
                    Err(err) => {
                        let _ = context.free_block(new_pblk);
                        return Err(err);
                    },
                }
                newly_allocated.push(new_pblk);
                *extents_dirty = true;
                extent_idx = if extent_idx > 0 { extent_idx - 1 } else { 0 };
                if extent_idx > extents.len() {
                    extent_idx = extents.len();
                }
                advance_extent_cursor(extents.as_slice(), &mut extent_idx, lblk);
                new_block = true;
                new_pblk
            },
        };
        let src = vstd::slice::slice_subrange(buf, written, written + chunk);
        proof {
            if h {
                let bsi = context.block_size as int;
                if src@.len() == bsi && in_block == 0 {
                    lemma_block_writable(*context, pblk as int, src@);
                } else {
                    let b = block_read(*context, pblk as int)->Ok_0;
                    assert(b.len() == bsi);
                    lemma_block_writable(*context, pblk as int, splice(b, in_block as int, src@));
                }
            }
        }
        let ghost ctx_before = *context;
        write_chunk(context, pblk, in_block, src, new_block)?;
        proof {
            if h {
                lemma_overwrite_kept(ctx_before, *context, s0, offset as int, buf@.len() as int);
                assert((offset + written + chunk) / (bs as int) >= lblk) by (nonlinear_arith)
                    requires
                        offset + written == lblk * bs + in_block,
                        chunk >= 0,
                        in_block >= 0,
                        bs > 0,
                {
                }
            }
        }
        proof {
            lemma_has_map_kept(ext0, extents@);
            assert(has_map(extents@, lblk as int));
            assert(file_off == lblk * bs + in_block) by (nonlinear_arith)
                requires
                    lblk == file_off as int / (bs as int),
                    in_block == file_off as int % (bs as int),
                    bs > 0,
            {
            }
            assert forall|pos: int| offset <= pos < offset + written + chunk
                implies #[trigger] has_map(extents@, pos / (bs as int)) by {
                if pos >= offset + written {
                    let t = pos - file_off;
                    assert(pos / (bs as int) == lblk) by (nonlinear_arith)
                        requires
                            file_off == lblk * bs + in_block,
                            pos == file_off + t,
                            0 <= t,
                            in_block + t < bs,
                            0 <= in_block,
                    {
                    }
                } else {
                    assert(has_map(ext0, pos / (bs as int)));
                }
            }
            assert(newly_allocated@.subrange(0, old(newly_allocated)@.len() as int)
                =~= old(newly_allocated)@);
        }
        written += chunk;
    }
    Ok(())
}

/// Mappings kept give the blocks mapped before a mapping still.
proof fn lemma_has_map_kept(a: Seq<ExtentLeaf>, b: Seq<ExtentLeaf>)
    requires
        forall|l: int, p: int| maps_to(a, l, p) ==> #[trigger] maps_to(b, l, p),
    ensures
        forall|l: int| has_map(a, l) ==> #[trigger] has_map(b, l),
{
    assert forall|l: int| has_map(a, l) implies #[trigger] has_map(b, l) by {
        let p = choose|p: int| #[trigger] maps_to(a, l, p);
        assert(maps_to(b, l, p));
    }
}

/// A byte `d` into a run of `n` whole blocks starting at block `lblk` lies in block
/// `lblk + d / bs`, one of the run's.
proof fn lemma_pos_in_run(file_off: int, lblk: int, bs: int, n: int, d: int)
    requires
        file_off == lblk * bs,
        bs > 0,
        0 <= d < n * bs,
    ensures
        (file_off + d) / bs == lblk + d / bs,
        0 <= d / bs < n,
{
    assert((file_off + d) / bs == lblk + d / bs) by (nonlinear_arith)
        requires
            file_off == lblk * bs,
            bs > 0,
            0 <= d,
    {
        assert(file_off + d == (lblk + d / bs) * bs + d % bs);
    }
    assert(d / bs < n) by (nonlinear_arith)
        requires
            bs > 0,
            0 <= d < n * bs,
    {
    }
}

/// Frees each block in `blocks`, ignoring failures.
fn free_all(context: &mut Context, blocks: &Vec<u64>)
    requires
        old(context).wf(),
    ensures
        final(context).unchanged_but_dev(*old(context)),
        exists|cs: Seq<Context>, rs: Seq<SysResult<()>>| #[trigger] free_chain(cs, rs, blocks@, blocks@.len() as int)
            && cs[0] == *old(context) && cs.last() == *final(context),
{
    let ghost mut cs: Seq<Context> = seq![*context];
    let ghost mut rs: Seq<SysResult<()>> = Seq::empty();
    let mut i: usize = 0;
    while i < blocks.len()
        invariant
            context.wf(),
            context.unchanged_but_dev(*old(context)),
            i <= blocks@.len(),
            free_chain(cs, rs, blocks@, i as int),
            cs[0] == *old(context),
            cs.last() == *context,
        decreases blocks@.len() - i,
    {
        let res = context.free_block(blocks[i]);
        proof {
            let cs0 = cs;
            let rs0 = rs;
            cs = cs0.push(*context);
            rs = rs0.push(res);
            assert forall|k: int| 0 <= k < i + 1 implies #[trigger] free_block_outcome(cs[k], cs[k + 1], blocks@[k], rs[k]) by {
                if k < i {
                    assert(cs[k] == cs0[k] && cs[k + 1] == cs0[k + 1] && rs[k] == rs0[k]);
                }
            }
        }
        i += 1;
    }
}

/// Writes `buf` into an extent-mapped file at `offset` (the write ending at `end`): blocks
/// are written in place or newly allocated and mapped; the tree is written back when it
/// changed, the size grows to `end` and the record is written. On a failure the blocks
/// allocated here are freed.
#[verifier::rlimit(40)]
pub fn write_extent_data_locked(context: &mut Context, inode: &mut Ext4Inode, buf: &[u8], offset: usize, end: usize)
    -> (r: SysResult<usize>)
    requires
        old(context).wf(),
        old(inode).raw@.len() >= INODE_BLOCK_ARRAY_OFF + INODE_BLOCK_ARRAY_SIZE,
        offset + buf@.len() <= usize::MAX,
    ensures
        final(context).unchanged_but_dev(*old(context)),
        write_changed(*final(inode), *old(inode)),
        final(inode).raw@.len() == old(inode).raw@.len(),
        buf@.len() == 0 ==> r == Ok::<usize, Errno>(0) && *final(inode) == *old(inode) && final(context).dev@ == old(context).dev@,
        buf@.len() > 0 && extent_data_error(*old(inode)) is Some ==> r == Err::<usize, Errno>(extent_data_error(*old(inode))->0)
            && *final(inode) == *old(inode) && final(context).dev@ == old(context).dev@,
        r matches Ok(n) ==> n == buf@.len(),
        r is Ok && buf@.len() > 0 ==> final(inode).i_size == (if end > old(inode).i_size { end as u64 } else { old(inode).i_size }),
        buf@.len() > 0 && extent_data_error(*old(inode)) is None ==> (snapshot_spec(*old(context), old(inode).ino, *old(inode))
            matches Err(e) ==> r == Err::<usize, Errno>(e) && *final(inode) == *old(inode) && *final(context) == *old(context)),
        buf@.len() > 0 && extent_data_error(*old(inode)) is None && end <= old(inode).i_size
            && (snapshot_spec(*old(context), old(inode).ino, *old(inode)) matches Ok(s)
            && overwrite_ok(*old(context), s.1, offset as int, buf@.len() as int))
            ==> r == Ok::<usize, Errno>(buf@.len() as usize) && *final(inode) == *old(inode),
{
    if buf.len() == 0 {
        return Ok(0);
    }
    ensure_extent_data_supported(inode)?;
    let ino = inode.ino;
    let (tree_generation, mut extents, old_extent_blocks) = context.extent_tree_snapshot(ino, inode)?;
    proof {
        lemma_snapshot_starts48(*old(context), ino, *old(inode));
    }
    let old_extents = vstd::slice::slice_to_vec(extents.as_slice());
    let mut extents_dirty = false;
    let mut metadata_dirty = false;
    let mut newly_allocated: Vec<u64> = Vec::new();
    let write_result = write_blocks_loop(context, buf, offset, &mut extents, &mut newly_allocated, &mut extents_dirty);
    match write_result {
        Ok(()) => {},
        Err(err) => {
            free_all(context, &newly_allocated);
            return Err(err);
        },
    }
    if (end as u64) > inode.i_size {
        inode.i_size = end as u64;
        metadata_dirty = true;
    }
    let ghost sized = *inode;
    if extents_dirty {
        match context.replace_extent_tree(ino, inode, tree_generation, extents.as_slice(), old_extent_blocks.as_slice()) {
            Ok(()) => {},
            Err(err) => {
                free_all(context, &newly_allocated);
                return Err(err);
            },
        }
        context.update_i_blocks_from_extent_delta(inode, old_extents.as_slice(), old_extent_blocks.len(), extents.as_slice())?;
        metadata_dirty = true;
    }
    if metadata_dirty {
        context.write_inode(inode)?;
    }
    Ok(buf.len())
}

/// Writes `buf` into a regular, extent-mapped file at `offset`.
pub fn write_raw_at_locked(context: &mut Context, inode: &mut Ext4Inode, buf: &[u8], offset: usize) -> (r: SysResult<usize>)
    requires
        old(context).wf(),
        old(inode).raw@.len() >= INODE_BLOCK_ARRAY_OFF + INODE_BLOCK_ARRAY_SIZE,
    ensures
        final(context).unchanged_but_dev(*old(context)),
        write_changed(*final(inode), *old(inode)),
        final(inode).raw@.len() == old(inode).raw@.len(),
        buf@.len() == 0 ==> r == Ok::<usize, Errno>(0) && *final(inode) == *old(inode),
        buf@.len() > 0 && regular_write_end(*old(inode), offset as int, buf@.len() as int) is Err ==>
            r == Err::<usize, Errno>(regular_write_end(*old(inode), offset as int, buf@.len() as int)->Err_0)
            && *final(inode) == *old(inode) && final(context).dev@ == old(context).dev@,
        r matches Ok(n) ==> n == buf@.len(),
        r is Ok && buf@.len() > 0 ==> final(inode).i_size == (if offset + buf@.len() > old(inode).i_size {
            (offset + buf@.len()) as u64 } else { old(inode).i_size }),
        buf@.len() > 0 && extent_data_error(*old(inode)) is Some ==> r is Err && *final(inode) == *old(inode)
            && final(context).dev@ == old(context).dev@,
{
    if buf.len() == 0 {
        return Ok(0);
    }
    let end = validate_regular_write(inode, offset, buf.len())?;
    write_extent_data_locked(context, inode, buf, offset, end)
}

} // verus!
