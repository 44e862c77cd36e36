//! Finding the physical block of a logical block by walking an inode's extent tree.
use vstd::prelude::*;
use crate::errno::{Errno, SysResult};
use super::ctx::Context;
use super::defs::{ExtentBlock, ExtentIdx, ExtentLeaf};
use super::extent::{extent_block_read, header_of, idxs_of, leaves_of, leaf_at, extent_block_of};
use super::extent_map::{find_spec, starts_bounded, ext_len, find_in_leaves, find_in_leaves_mut};

verus! {

/// The child of the last index entry, in order, whose first block is at most `lblk`;
/// the scan stops at the first entry past `lblk`.
pub open spec fn pick_child(idx: Seq<ExtentIdx>, lblk: u32, cur: Option<u64>) -> Option<u64>
    decreases idx.len(),
{
    if idx.len() == 0 {
        cur
    } else if idx[0].ei_block <= lblk {
        pick_child(idx.drop_first(), lblk, Some(idx[0].ei_leaf))
    } else {
        cur
    }
}

/// The child to descend into: the picked one, else the first.
pub open spec fn next_child(idx: Seq<ExtentIdx>, lblk: u32) -> Option<u64> {
    match pick_child(idx, lblk, None) {
        Some(x) => Some(x),
        None => if idx.len() > 0 { Some(idx[0].ei_leaf) } else { None },
    }
}

/// Index entries in order of their first blocks.
pub open spec fn idx_sorted(idx: Seq<ExtentIdx>) -> bool {
    forall|a: int, b: int| 0 <= a < b < idx.len() ==> idx[a].ei_block <= idx[b].ei_block
}

/// Scanning sorted entries from any start picks entry `k` when it is the last whose first
/// block is at most `lblk`.
proof fn lemma_pick_last_covering(idx: Seq<ExtentIdx>, lblk: u32, cur: Option<u64>, k: int)
    requires
        idx_sorted(idx),
        0 <= k < idx.len(),
        idx[k].ei_block <= lblk,
        k + 1 == idx.len() || lblk < idx[k + 1].ei_block,
    ensures
        pick_child(idx, lblk, cur) == Some(idx[k].ei_leaf),
    decreases idx.len(),
{
    let rest = idx.drop_first();
    assert(idx[0].ei_block <= idx[k].ei_block);
    if k == 0 {
        if rest.len() > 0 {
            assert(rest[0] == idx[1]);
        }
    } else {
        assert forall|a: int, b: int| 0 <= a < b < rest.len() implies rest[a].ei_block <= rest[b].ei_block by {
            assert(rest[a] == idx[a + 1] && rest[b] == idx[b + 1]);
        }
        assert(rest[k - 1] == idx[k]);
        if k < rest.len() {
            assert(rest[k] == idx[k + 1]);
        }
        lemma_pick_last_covering(rest, lblk, Some(idx[0].ei_leaf), k - 1);
    }
}

/// In index entries sorted by first block, the child descended into for `lblk` is that of the
/// entry with the greatest first block at most `lblk`; when every entry starts past `lblk`, it
/// is the first entry's.
pub proof fn law_child_covers_block(idx: Seq<ExtentIdx>, lblk: u32, k: int)
    requires
        idx_sorted(idx),
        0 <= k < idx.len(),
    ensures
        idx[k].ei_block <= lblk && (k + 1 == idx.len() || lblk < idx[k + 1].ei_block)
            ==> next_child(idx, lblk) == Some(idx[k].ei_leaf),
        lblk < idx[0].ei_block ==> next_child(idx, lblk) == Some(idx[0].ei_leaf),
{
    if idx[k].ei_block <= lblk && (k + 1 == idx.len() || lblk < idx[k + 1].ei_block) {
        lemma_pick_last_covering(idx, lblk, None, k);
    }
}

/// What looking up `lblk` from a node of the given depth and entries gives: the physical block
/// or none, or the error. Each child must sit strictly lower than its parent.
pub open spec fn lookup_spec(c: Context, ino: u32, generation: u32, depth: u16, idx: Seq<ExtentIdx>,
    leaf: Seq<ExtentLeaf>, lblk: u32, check_uninit: bool) -> Result<Option<u64>, Errno>
    decreases depth,
{
    if depth == 0 {
        Ok(find_spec(leaf, lblk, check_uninit))
    } else {
        match next_child(idx, lblk) {
            None => Err(Errno::EIO),
            Some(child) => match extent_block_read(c, ino, generation, child) {
                Err(e) => Err(e),
                Ok(raw) => {
                    let h = header_of(raw);
                    if h.eh_depth >= depth {
                        Err(Errno::EIO)
                    } else if h.eh_depth == 0 {
                        lookup_spec(c, ino, generation, h.eh_depth, Seq::empty(), leaves_of(raw), lblk, check_uninit)
                    } else {
                        lookup_spec(c, ino, generation, h.eh_depth, idxs_of(raw), Seq::empty(), lblk, check_uninit)
                    }
                },
            },
        }
    }
}

/// Looking a block up from a node of sorted index entries whose covering child is a leaf node
/// gives what that leaf node maps the block to.
pub proof fn law_lookup_through_covering_leaf(c: Context, ino: u32, generation: u32, depth: u16, idx: Seq<ExtentIdx>,
    leaf: Seq<ExtentLeaf>, lblk: u32, check_uninit: bool, k: int, raw: Seq<u8>)
    requires
        depth >= 1,
        idx_sorted(idx),
        0 <= k < idx.len(),
        idx[k].ei_block <= lblk,
        k + 1 == idx.len() || lblk < idx[k + 1].ei_block,
        extent_block_read(c, ino, generation, idx[k].ei_leaf) == Ok::<Seq<u8>, Errno>(raw),
        header_of(raw).eh_depth == 0,
    ensures
        lookup_spec(c, ino, generation, depth, idx, leaf, lblk, check_uninit)
            == Ok::<Option<u64>, Errno>(find_spec(leaves_of(raw), lblk, check_uninit)),
{
    law_child_covers_block(idx, lblk, k);
    reveal_with_fuel(lookup_spec, 2);
}

/// Leaves read from disk have 48-bit physical starts.
proof fn lemma_parsed_leaves_bounded(raw: Seq<u8>)
    ensures
        starts_bounded(leaves_of(raw)),
{
    assert forall|i: int| 0 <= i < leaves_of(raw).len() implies #[trigger] leaves_of(raw)[i].ee_start
        + ext_len(leaves_of(raw)[i].ee_len_raw) <= u64::MAX by {
        assert(leaf_at(raw, i).ee_start < 0x1_0000_0000_0000);
    }
}

/// The child to descend into for `lblk`.
fn choose_child(idx: &Vec<ExtentIdx>, lblk: u32) -> (r: Option<u64>)
    ensures
        r == next_child(idx@, lblk),
{
    let mut chosen: Option<u64> = None;
    let mut i: usize = 0;
    assert(idx@.skip(0) =~= idx@);
    while i < idx.len()
        invariant
            i <= idx@.len(),
            pick_child(idx@, lblk, None) == pick_child(idx@.skip(i as int), lblk, chosen),
        ensures
            pick_child(idx@, lblk, None) == chosen,
        decreases idx@.len() - i,
    {
        proof {
            assert(idx@.skip(i as int)[0] == idx@[i as int]);
            assert(idx@.skip(i as int).drop_first() =~= idx@.skip(i + 1));
        }
        if idx[i].ei_block <= lblk {
            chosen = Some(idx[i].ei_leaf);
        } else {
            break;
        }
        i += 1;
    }
    proof {
        if i == idx@.len() {
            assert(idx@.skip(i as int) =~= Seq::<ExtentIdx>::empty());
        }
    }
    match chosen {
        Some(x) => Some(x),
        None => if idx.len() > 0 { Some(idx[0].ei_leaf) } else { None },
    }
}

/// Walks the extent tree from `root` down to the leaves covering `lblk`; blocks of
/// uninitialised extents are reported as unmapped.
pub fn lookup_lblk(context: &Context, root: ExtentBlock, ino: u32, generation: u32, lblk: u32) -> (r: SysResult<Option<u64>>)
    requires
        context.wf(),
        starts_bounded(root.leaf@),
    ensures
        r == lookup_spec(*context, ino, generation, root.header.eh_depth, root.idx@, root.leaf@, lblk, true),
{
    let mut cur = root;
    loop
        invariant
            context.wf(),
            starts_bounded(cur.leaf@),
            lookup_spec(*context, ino, generation, root.header.eh_depth, root.idx@, root.leaf@, lblk, true)
                == lookup_spec(*context, ino, generation, cur.header.eh_depth, cur.idx@, cur.leaf@, lblk, true),
        decreases cur.header.eh_depth,
    {
        if cur.header.eh_depth == 0 {
            return Ok(find_in_leaves(cur.leaf.as_slice(), lblk));
        }
        let next = match choose_child(&cur.idx, lblk) {
            Some(n) => n,
            None => return Err(Errno::EIO),
        };
        let child = context.read_extent_block(ino, generation, next)?;
        if child.header.eh_depth >= cur.header.eh_depth {
            return Err(Errno::EIO);
        }
        proof {
            lemma_parsed_leaves_bounded(child.raw@);
            if child.header.eh_depth == 0 {
                assert(child.idx@ =~= Seq::<ExtentIdx>::empty());
            } else {
                assert(child.leaf@ =~= Seq::<ExtentLeaf>::empty());
            }
        }
        cur = child;
    }
}

/// Walks the extent tree from `root` down to the leaves covering `lblk`.
pub fn lookup_lblk_mut(context: &Context, root: ExtentBlock, ino: u32, generation: u32, lblk: u32) -> (r: SysResult<Option<u64>>)
    requires
        context.wf(),
        starts_bounded(root.leaf@),
    ensures
        r == lookup_spec(*context, ino, generation, root.header.eh_depth, root.idx@, root.leaf@, lblk, false),
{
    let mut cur = root;
    loop
        invariant
            context.wf(),
            starts_bounded(cur.leaf@),
            lookup_spec(*context, ino, generation, root.header.eh_depth, root.idx@, root.leaf@, lblk, false)
                == lookup_spec(*context, ino, generation, cur.header.eh_depth, cur.idx@, cur.leaf@, lblk, false),
        decreases cur.header.eh_depth,
    {
        if cur.header.eh_depth == 0 {
            return Ok(find_in_leaves_mut(cur.leaf.as_slice(), lblk));
        }
        let next = match choose_child(&cur.idx, lblk) {
            Some(n) => n,
            None => return Err(Errno::EIO),
        };
        let child = context.read_extent_block(ino, generation, next)?;
        if child.header.eh_depth >= cur.header.eh_depth {
            return Err(Errno::EIO);
        }
        proof {
            lemma_parsed_leaves_bounded(child.raw@);
            if child.header.eh_depth == 0 {
                assert(child.idx@ =~= Seq::<ExtentIdx>::empty());
            } else {
                assert(child.leaf@ =~= Seq::<ExtentLeaf>::empty());
            }
        }
        cur = child;
    }
}

} // verus!
