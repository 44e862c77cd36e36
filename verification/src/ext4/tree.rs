//! Whole extent trees: gathering their leaves, and writing a list of leaves back as a tree.
use vstd::prelude::*;
use crate::errno::{Errno, SysResult};
use super::ctx::Context;
use super::defs::{Ext4Inode, ExtentBlock, ExtentHeader, ExtentIdx, ExtentLeaf, has_bits, flags_contain,
    INODE_FLAG_EXTENTS, INODE_BLOCK_ARRAY_OFF, INODE_BLOCK_ARRAY_SIZE, EXTENT_HEADER_SIZE, EXTENT_ENTRY_SIZE,
    EXT4_EXTENT_MAGIC, ROOT_EXTENT_MAX};
use super::extent::{extent_block_read, header_of, idxs_of, leaves_of, leaf_at, extent_block_of, extent_parse_error};
use super::extent_map::{pends_bounded, validate_from, maps_to, mapped, kept_spec, freed_spec, insert_extent_leaf,
    remove_extent_leaves};
use super::balloc::{i_blocks_after, free_chain, free_block_outcome};

verus! {

/// Glues a leading part onto what a later walk gives.
pub open spec fn prepend_walk(l: Seq<ExtentLeaf>, b: Seq<u64>, rest: Result<(Seq<ExtentLeaf>, Seq<u64>), Errno>)
    -> Result<(Seq<ExtentLeaf>, Seq<u64>), Errno> {
    match rest {
        Ok(p) => Ok((l + p.0, b + p.1)),
        Err(e) => Err(e),
    }
}

/// The leaves under the index entries `idx` of a node at depth `depth`, in order, with the
/// tree blocks met on the way (each node before the nodes under it), or the first error.
/// Each child must sit strictly lower than its parent.
pub open spec fn collect_idx(c: Context, ino: u32, generation: u32, depth: u16, idx: Seq<ExtentIdx>)
    -> Result<(Seq<ExtentLeaf>, Seq<u64>), Errno>
    decreases depth, idx.len(),
{
    if idx.len() == 0 {
        Ok((Seq::empty(), Seq::empty()))
    } else {
        match extent_block_read(c, ino, generation, idx[0].ei_leaf) {
            Err(e) => Err(e),
            Ok(raw) => {
                let h = header_of(raw);
                if h.eh_depth >= depth {
                    Err(Errno::EIO)
                } else {
                    let sub = if h.eh_depth == 0 {
                        Ok((leaves_of(raw), Seq::<u64>::empty()))
                    } else {
                        collect_idx(c, ino, generation, h.eh_depth, idxs_of(raw))
                    };
                    match sub {
                        Err(e) => Err(e),
                        Ok(p) => prepend_walk(p.0, seq![idx[0].ei_leaf] + p.1,
                            collect_idx(c, ino, generation, depth, idx.drop_first())),
                    }
                }
            },
        }
    }
}

/// The leaves of the tree below a node, with the tree blocks under it, or the error.
pub open spec fn collect_spec(c: Context, ino: u32, generation: u32, depth: u16, idx: Seq<ExtentIdx>, leaf: Seq<ExtentLeaf>)
    -> Result<(Seq<ExtentLeaf>, Seq<u64>), Errno> {
    if depth == 0 {
        Ok((leaf, Seq::empty()))
    } else {
        collect_idx(c, ino, generation, depth, idx)
    }
}

/// The root node the inode's block array holds.
pub open spec fn root_bytes(inode: Ext4Inode) -> Seq<u8> {
    inode.raw@.subrange(INODE_BLOCK_ARRAY_OFF as int, INODE_BLOCK_ARRAY_OFF + INODE_BLOCK_ARRAY_SIZE)
}

/// What taking a snapshot of the inode's extent tree gives: the root's generation, the leaves
/// and the tree blocks, or the error.
pub open spec fn snapshot_spec(c: Context, ino: u32, inode: Ext4Inode) -> Result<(u32, Seq<ExtentLeaf>, Seq<u64>), Errno> {
    let root = root_bytes(inode);
    let h = header_of(root);
    if !has_bits(inode.i_flags, INODE_FLAG_EXTENTS) {
        Err(Errno::EOPNOTSUPP)
    } else {
        match extent_parse_error(root, true, c.block_size as int) {
            Some(e) => Err(e),
            None => match collect_spec(c, ino, inode.i_generation, h.eh_depth, idxs_of(root), leaves_of(root)) {
                Ok(p) => Ok((h.eh_generation, p.0, p.1)),
                Err(e) => Err(e),
            },
        }
    }
}

impl Context {
    /// Appends the leaves below `block`, in order, to `extents` and the tree blocks met on the
    /// way to `extent_blocks`; a child no lower than its parent is `EIO`.
    pub fn collect_extent_leaves(&self, ino: u32, generation: u32, block: &ExtentBlock, extents: &mut Vec<ExtentLeaf>,
        extent_blocks: &mut Vec<u64>) -> (r: SysResult<()>)
        requires
            self.wf(),
            block.header.eh_depth == 0 ==> block.idx@.len() == 0,
            block.header.eh_depth != 0 ==> block.leaf@.len() == 0,
        ensures
            match collect_spec(*self, ino, generation, block.header.eh_depth, block.idx@, block.leaf@) {
                Ok(p) => r is Ok && final(extents)@ == old(extents)@ + p.0 && final(extent_blocks)@ == old(extent_blocks)@ + p.1,
                Err(e) => r == Err::<(), Errno>(e),
            },
        decreases block.header.eh_depth,
    {
        if block.header.eh_depth == 0 {
            let mut i: usize = 0;
            while i < block.leaf.len()
                invariant
                    i <= block.leaf@.len(),
                    extents@ == old(extents)@ + block.leaf@.subrange(0, i as int),
                    extent_blocks@ == old(extent_blocks)@,
                decreases block.leaf@.len() - i,
            {
                extents.push(block.leaf[i]);
                i += 1;
                proof {
                    assert(extents@ =~= old(extents)@ + block.leaf@.subrange(0, i as int));
                }
            }
            proof {
                assert(block.leaf@.subrange(0, i as int) =~= block.leaf@);
                assert(extent_blocks@ =~= old(extent_blocks)@ + Seq::<u64>::empty());
            }
            return Ok(());
        }
        let depth = block.header.eh_depth;
        let ghost full = collect_idx(*self, ino, generation, depth, block.idx@);
        let mut i: usize = 0;
        proof {
            assert(block.idx@.skip(0) =~= block.idx@);
            assert(extents@.skip(old(extents)@.len() as int) =~= Seq::<ExtentLeaf>::empty());
            assert(extent_blocks@.skip(old(extent_blocks)@.len() as int) =~= Seq::<u64>::empty());
            assert(prepend_walk(Seq::empty(), Seq::empty(), full) == full) by {
                match full {
                    Ok(p) => {
                        assert(Seq::<ExtentLeaf>::empty() + p.0 =~= p.0);
                        assert(Seq::<u64>::empty() + p.1 =~= p.1);
                    },
                    Err(_) => {},
                }
            }
        }
        while i < block.idx.len()
            invariant
                self.wf(),
                depth == block.header.eh_depth,
                depth > 0,
                i <= block.idx@.len(),
                full == collect_idx(*self, ino, generation, depth, block.idx@),
                extents@.len() >= old(extents)@.len(),
                extent_blocks@.len() >= old(extent_blocks)@.len(),
                extents@.subrange(0, old(extents)@.len() as int) == old(extents)@,
                extent_blocks@.subrange(0, old(extent_blocks)@.len() as int) == old(extent_blocks)@,
                full == prepend_walk(extents@.skip(old(extents)@.len() as int), extent_blocks@.skip(old(extent_blocks)@.len() as int),
                    collect_idx(*self, ino, generation, depth, block.idx@.skip(i as int))),
            decreases block.idx@.len() - i,
        {
            let ghost rest = block.idx@.skip(i as int);
            let ghost l0 = extents@.skip(old(extents)@.len() as int);
            let ghost b0 = extent_blocks@.skip(old(extent_blocks)@.len() as int);
            let ghost e0 = extents@;
            let ghost x0 = extent_blocks@;
            proof {
                assert(rest[0] == block.idx@[i as int]);
                assert(rest.drop_first() =~= block.idx@.skip(i + 1));
            }
            let child_pblk = block.idx[i].ei_leaf;
            extent_blocks.push(child_pblk);
            let child = match self.read_extent_block(ino, generation, child_pblk) {
                Ok(b) => b,
                Err(e) => {
                    proof {
                        assert(collect_idx(*self, ino, generation, depth, rest) == Err::<(Seq<ExtentLeaf>, Seq<u64>), Errno>(e));
                    }
                    return Err(e);
                },
            };
            if child.header.eh_depth >= depth {
                return Err(Errno::EIO);
            }
            let ghost e1 = extents@;
            let ghost x1 = extent_blocks@;
            let sub = self.collect_extent_leaves(ino, generation, &child, extents, extent_blocks);
            proof {
                assert(child.header == header_of(child.raw@));
                if child.header.eh_depth == 0 {
                    assert(collect_spec(*self, ino, generation, child.header.eh_depth, child.idx@, child.leaf@)
                        == Ok::<(Seq<ExtentLeaf>, Seq<u64>), Errno>((leaves_of(child.raw@), Seq::<u64>::empty())));
                } else {
                    assert(child.idx@ == idxs_of(child.raw@));
                }
            }
            match sub {
                Ok(_) => {},
                Err(e) => {
                    return Err(e);
                },
            }
            proof {
                let p = collect_spec(*self, ino, generation, child.header.eh_depth, child.idx@, child.leaf@)->Ok_0;
                assert(extents@ == e1 + p.0);
                assert(extent_blocks@ == x1 + p.1);
                assert(x1 == x0.push(child_pblk));
                assert(extents@.skip(old(extents)@.len() as int) =~= l0 + p.0) by {
                    assert(e0.skip(old(extents)@.len() as int) == l0);
                }
                assert(extent_blocks@.skip(old(extent_blocks)@.len() as int) =~= b0 + (seq![child_pblk] + p.1)) by {
                    assert(x0.skip(old(extent_blocks)@.len() as int) == b0);
                }
                assert(extents@.subrange(0, old(extents)@.len() as int) =~= old(extents)@) by {
                    assert(e0.subrange(0, old(extents)@.len() as int) == old(extents)@);
                }
                assert(extent_blocks@.subrange(0, old(extent_blocks)@.len() as int) =~= old(extent_blocks)@) by {
                    assert(x0.subrange(0, old(extent_blocks)@.len() as int) == old(extent_blocks)@);
                }
                let tail = collect_idx(*self, ino, generation, depth, block.idx@.skip(i + 1));
                assert(collect_idx(*self, ino, generation, depth, rest) == prepend_walk(p.0, seq![child_pblk] + p.1, tail));
                match tail {
                    Ok(t) => {
                        assert(l0 + (p.0 + t.0) =~= (l0 + p.0) + t.0);
                        assert(b0 + ((seq![child_pblk] + p.1) + t.1) =~= (b0 + (seq![child_pblk] + p.1)) + t.1);
                    },
                    Err(_) => {},
                }
            }
            i += 1;
        }
        proof {
            assert(block.idx@.skip(i as int) =~= Seq::<ExtentIdx>::empty());
            let l = extents@.skip(old(extents)@.len() as int);
            let b = extent_blocks@.skip(old(extent_blocks)@.len() as int);
            assert(l + Seq::<ExtentLeaf>::empty() =~= l);
            assert(b + Seq::<u64>::empty() =~= b);
            assert(extents@ =~= old(extents)@ + l) by {
                assert(extents@ =~= extents@.subrange(0, old(extents)@.len() as int) + l);
            }
            assert(extent_blocks@ =~= old(extent_blocks)@ + b) by {
                assert(extent_blocks@ =~= extent_blocks@.subrange(0, old(extent_blocks)@.len() as int) + b);
            }
        }
        Ok(())
    }

    /// The generation of the inode's extent tree, its leaves in order and its tree blocks;
    /// `EOPNOTSUPP` for an inode that does not use extents.
    pub fn extent_tree_snapshot(&self, ino: u32, inode: &Ext4Inode) -> (r: SysResult<(u32, Vec<ExtentLeaf>, Vec<u64>)>)
        requires
            self.wf(),
            inode.raw@.len() >= INODE_BLOCK_ARRAY_OFF + INODE_BLOCK_ARRAY_SIZE,
        ensures
            match snapshot_spec(*self, ino, *inode) {
                Ok(s) => r matches Ok(t) && t.0 == s.0 && t.1@ == s.1 && t.2@ == s.2,
                Err(e) => r == Err::<(u32, Vec<ExtentLeaf>, Vec<u64>), Errno>(e),
            },
    {
        if !flags_contain(inode.i_flags, INODE_FLAG_EXTENTS) {
            return Err(Errno::EOPNOTSUPP);
        }
        let root = self.parse_extent_root(inode)?;
        let tree_generation = root.header.eh_generation;
        let mut extents: Vec<ExtentLeaf> = Vec::new();
        let mut old_extent_blocks: Vec<u64> = Vec::new();
        proof {
            let rb = root_bytes(*inode);
            if root.header.eh_depth == 0 {
                assert(root.leaf@ == leaves_of(rb));
            } else {
                assert(root.idx@ == idxs_of(rb));
            }
        }
        self.collect_extent_leaves(ino, inode.i_generation, &root, &mut extents, &mut old_extent_blocks)?;
        proof {
            assert(extents@ =~= Seq::<ExtentLeaf>::empty() + extents@);
        }
        Ok((tree_generation, extents, old_extent_blocks))
    }
}


/// The first `n` leaf slots of `raw` hold `extents` (physical starts keep their low 48 bits).
pub open spec fn leaves_stored(raw: Seq<u8>, extents: Seq<ExtentLeaf>) -> bool {
    forall|i: int| 0 <= i < extents.len() ==> #[trigger] super::extent::leaf_at(raw, i) == (ExtentLeaf {
        ee_start: (extents[i].ee_start as int % 0x1_0000_0000_0000) as u64,
        ..extents[i]
    })
}

/// A node of a tree being built: its first logical block, its block and its depth.
pub struct BuiltExtentNode {
    pub first_lblk: u32,
    pub pblk: u64,
    pub depth: u16,
}

/// The inode is `old` with only its record bytes changed.
pub open spec fn only_raw_changed(new: Ext4Inode, old: Ext4Inode) -> bool {
    new == (Ext4Inode { raw: new.raw, ..old })
}

impl Context {
    /// Stores a root node (at most four entries) into the inode's block array, the unused
    /// slots zeroed.
    fn encode_extent_root(&self, inode: &mut Ext4Inode, root: &mut ExtentBlock) -> (r: SysResult<()>)
        requires
            old(inode).raw@.len() >= INODE_BLOCK_ARRAY_OFF + INODE_BLOCK_ARRAY_SIZE,
            old(root).header.eh_entries <= old(root).header.eh_max,
            old(root).header.eh_entries <= ROOT_EXTENT_MAX,
            old(root).header.eh_depth == 0 ==> old(root).leaf@.len() == old(root).header.eh_entries,
            old(root).header.eh_depth != 0 ==> old(root).idx@.len() == old(root).header.eh_entries,
        ensures
            r is Ok,
            only_raw_changed(*final(inode), *old(inode)),
            final(inode).raw@.len() == old(inode).raw@.len(),
            final(inode).raw@.subrange(0, INODE_BLOCK_ARRAY_OFF as int) == old(inode).raw@.subrange(0, INODE_BLOCK_ARRAY_OFF as int),
            final(inode).raw@.subrange(INODE_BLOCK_ARRAY_OFF + INODE_BLOCK_ARRAY_SIZE, old(inode).raw@.len() as int)
                == old(inode).raw@.subrange(INODE_BLOCK_ARRAY_OFF + INODE_BLOCK_ARRAY_SIZE, old(inode).raw@.len() as int),
            header_of(root_bytes(*final(inode))) == old(root).header,
            old(root).header.eh_depth == 0 ==> leaves_stored(root_bytes(*final(inode)), old(root).leaf@),
            old(root).header.eh_depth != 0 ==> forall|i: int| 0 <= i < old(root).idx@.len() ==>
                #[trigger] super::extent::idx_at(root_bytes(*final(inode)), i) == (ExtentIdx {
                    ei_leaf: (old(root).idx@[i].ei_leaf as int % 0x1_0000_0000_0000) as u64,
                    ..old(root).idx@[i]
                }),
    {
        let img: Vec<u8> = vec![0u8; INODE_BLOCK_ARRAY_SIZE];
        let mut blk = ExtentBlock {
            pblk: 0,
            raw: img,
            header: root.header,
            idx: vstd::slice::slice_to_vec(root.idx.as_slice()),
            leaf: vstd::slice::slice_to_vec(root.leaf.as_slice()),
            tail_checksum: None,
        };
        let res = super::extent::encode_extent_block(&mut blk);
        proof {
            assert(super::extent::entry_off(old(root).header.eh_entries as int) <= 60);
        }
        match res {
            Ok(_) => {},
            Err(e) => {
                return Err(e);
            },
        }
        let ghost r0 = inode.raw@;
        inode.set_i_block(blk.raw.as_slice());
        proof {
            let n = r0.len() as int;
            let o = INODE_BLOCK_ARRAY_OFF as int;
            assert(root_bytes(*inode) =~= blk.raw@);
            assert(inode.raw@.subrange(0, o) =~= r0.subrange(0, o));
            assert(inode.raw@.subrange(o + 60, n) =~= r0.subrange(o + 60, n));
            if old(root).header.eh_depth == 0 {
                assert forall|i: int| 0 <= i < old(root).leaf@.len() implies
                    #[trigger] super::extent::leaf_at(root_bytes(*inode), i) == (ExtentLeaf {
                        ee_start: (old(root).leaf@[i].ee_start as int % 0x1_0000_0000_0000) as u64,
                        ..old(root).leaf@[i]
                    }) by {
                    assert(blk.leaf@[i] == old(root).leaf@[i]);
                }
            } else {
                assert forall|i: int| 0 <= i < old(root).idx@.len() implies
                    #[trigger] super::extent::idx_at(root_bytes(*inode), i) == (ExtentIdx {
                        ei_leaf: (old(root).idx@[i].ei_leaf as int % 0x1_0000_0000_0000) as u64,
                        ..old(root).idx@[i]
                    }) by {
                    assert(blk.idx@[i] == old(root).idx@[i]);
                }
            }
        }
        Ok(())
    }

    /// The next block for a tree node: the next of the old tree blocks while some are left,
    /// else a newly allocated one, recorded in `newly_allocated`.
    fn next_extent_tree_block(&mut self, old_extent_blocks: &[u64], reused: &mut usize, newly_allocated: &mut Vec<u64>)
        -> (r: SysResult<u64>)
        requires
            old(self).wf(),
        ensures
            final(self).unchanged_but_dev(*old(self)),
            *old(reused) < old_extent_blocks@.len() ==> r == Ok::<u64, Errno>(old_extent_blocks@[*old(reused) as int])
                && *final(reused) == *old(reused) + 1 && final(newly_allocated)@ == old(newly_allocated)@
                && final(self).dev@ == old(self).dev@,
            *old(reused) >= old_extent_blocks@.len() ==> *final(reused) == *old(reused) && match r {
                Ok(p) => final(newly_allocated)@ == old(newly_allocated)@.push(p) && p < old(self).blocks_count,
                Err(_) => final(newly_allocated)@ == old(newly_allocated)@,
            },
    {
        if *reused < old_extent_blocks.len() {
            let pblk = old_extent_blocks[*reused];
            *reused = *reused + 1;
            Ok(pblk)
        } else {
            let pblk = self.alloc_block()?;
            newly_allocated.push(pblk);
            Ok(pblk)
        }
    }

    /// A fresh, zeroed tree node of the given depth holding `leaf` (depth zero) or `idx`;
    /// `EINVAL` when the entries do not fit a block.
    fn make_extent_block(&self, pblk: u64, depth: u16, tree_generation: u32, leaf: &[ExtentLeaf], idx: &[ExtentIdx])
        -> (r: SysResult<ExtentBlock>)
        requires
            self.wf(),
        ensures
            ({
                let max = ((self.block_size - EXTENT_HEADER_SIZE) / EXTENT_ENTRY_SIZE as int) as u16;
                let n = if depth == 0 { leaf@.len() } else { idx@.len() };
                match r {
                    Ok(b) => n <= max && b.pblk == pblk && b.raw@ == Seq::new(self.block_size as nat, |i: int| 0u8)
                        && b.header == (ExtentHeader { eh_magic: EXT4_EXTENT_MAGIC, eh_entries: n as u16, eh_max: max,
                            eh_depth: depth, eh_generation: tree_generation })
                        && b.idx@ == idx@ && b.leaf@ == leaf@ && b.tail_checksum is None,
                    Err(e) => n > max && e == Errno::EINVAL,
                }
            }),
    {
        let eh_max = self.extent_block_max_entries()?;
        let entries = if depth == 0 { leaf.len() } else { idx.len() };
        if entries > eh_max as usize {
            return Err(Errno::EINVAL);
        }
        let raw: Vec<u8> = vec![0u8; self.block_size as usize];
        proof {
            assert(raw@ =~= Seq::new(self.block_size as nat, |i: int| 0u8));
        }
        Ok(ExtentBlock {
            pblk,
            raw,
            header: ExtentHeader {
                eh_magic: EXT4_EXTENT_MAGIC,
                eh_entries: entries as u16,
                eh_max,
                eh_depth: depth,
                eh_generation: tree_generation,
            },
            idx: vstd::slice::slice_to_vec(idx),
            leaf: vstd::slice::slice_to_vec(leaf),
            tail_checksum: None,
        })
    }

    /// Frees each of `blocks` in turn, stopping at the first failure.
    fn free_blocks_in(&mut self, blocks: &[u64]) -> (r: SysResult<()>)
        requires
            old(self).wf(),
        ensures
            final(self).unchanged_but_dev(*old(self)),
            r is Ok ==> exists|cs: Seq<Context>, rs: Seq<SysResult<()>>| #[trigger] free_chain(cs, rs, blocks@, blocks@.len() as int)
                && cs[0] == *old(self) && cs.last() == *final(self)
                && forall|k: int| 0 <= k < rs.len() ==> #[trigger] rs[k] is Ok,
            r is Err ==> exists|cs: Seq<Context>, rs: Seq<SysResult<()>>| #[trigger] free_chain(cs, rs, blocks@, rs.len() as int)
                && 0 < rs.len() && cs[0] == *old(self) && cs.last() == *final(self) && rs.last() == r
                && forall|k: int| 0 <= k < rs.len() - 1 ==> #[trigger] rs[k] is Ok,
    {
        let ghost mut cs: Seq<Context> = seq![*self];
        let ghost mut rs: Seq<SysResult<()>> = Seq::empty();
        let mut i: usize = 0;
        while i < blocks.len()
            invariant
                self.wf(),
                self.unchanged_but_dev(*old(self)),
                i <= blocks@.len(),
                free_chain(cs, rs, blocks@, i as int),
                cs[0] == *old(self),
                cs.last() == *self,
                forall|k: int| 0 <= k < rs.len() ==> #[trigger] rs[k] is Ok,
            decreases blocks@.len() - i,
        {
            let ghost pre = *self;
            let res = self.free_block(blocks[i]);
            proof {
                let cs0 = cs;
                let rs0 = rs;
                cs = cs0.push(*self);
                rs = rs0.push(res);
                assert forall|k: int| 0 <= k < i + 1 implies #[trigger] free_block_outcome(cs[k], cs[k + 1], blocks@[k], rs[k]) by {
                    if k < i {
                        assert(cs[k] == cs0[k] && cs[k + 1] == cs0[k + 1] && rs[k] == rs0[k]);
                    }
                }
                assert(free_chain(cs, rs, blocks@, i + 1));
            }
            if res.is_err() {
                proof {
                    assert(free_chain(cs, rs, blocks@, rs.len() as int));
                    assert forall|k: int| 0 <= k < rs.len() - 1 implies #[trigger] rs[k] is Ok by {
                        assert(rs[k] == rs.drop_last()[k]);
                    }
                }
                return res;
            }
            i += 1;
        }
        Ok(())
    }
}


/// What the root of a rebuilt tree holds: the empty root for no extents; the extents
/// themselves when at most four; else one to four index entries one level or more up, the
/// first starting where the first extent starts.
pub open spec fn rebuilt_root(root: Seq<u8>, tree_generation: u32, extents: Seq<ExtentLeaf>) -> bool {
    let h = header_of(root);
    if extents.len() == 0 {
        root == super::balloc::empty_root_bytes()
    } else if extents.len() <= ROOT_EXTENT_MAX {
        &&& h == (ExtentHeader { eh_magic: EXT4_EXTENT_MAGIC, eh_entries: extents.len() as u16, eh_max: ROOT_EXTENT_MAX,
            eh_depth: 0, eh_generation: tree_generation })
        &&& leaves_stored(root, extents)
    } else {
        &&& h.eh_magic == EXT4_EXTENT_MAGIC
        &&& h.eh_max == ROOT_EXTENT_MAX
        &&& 1 <= h.eh_entries <= ROOT_EXTENT_MAX
        &&& h.eh_depth >= 1
        &&& h.eh_generation == tree_generation
        &&& super::extent::idx_at(root, 0).ei_block == extents[0].ee_block
    }
}

impl Context {
    /// Writes `extents` back as the inode's extent tree: in the root when at most four, else
    /// in full nodes (the old tree blocks reused first, then new ones) under a root of index
    /// entries; writes the inode record and frees the old tree blocks left over.
    #[verifier::rlimit(40)]
    pub fn rebuild_extent_tree(&mut self, ino: u32, inode: &mut Ext4Inode, tree_generation: u32, extents: &[ExtentLeaf],
        old_extent_blocks: &[u64]) -> (r: SysResult<()>)
        requires
            old(self).wf(),
            old(inode).raw@.len() >= INODE_BLOCK_ARRAY_OFF + INODE_BLOCK_ARRAY_SIZE,
        ensures
            final(self).unchanged_but_dev(*old(self)),
            only_raw_changed(*final(inode), *old(inode)),
            final(inode).raw@.len() == old(inode).raw@.len(),
            r is Ok ==> final(inode).raw@.len() == old(self).inode_size
                && rebuilt_root(root_bytes(*final(inode)), tree_generation, extents@),
            extents@.len() <= ROOT_EXTENT_MAX ==> rebuilt_root(root_bytes(*final(inode)), tree_generation, extents@),
    {
        if extents.len() == 0 {
            self.init_empty_extent_root(inode)?;
            let ghost mid = *inode;
            proof {
                assert(root_bytes(mid) =~= super::balloc::empty_root_bytes());
            }
            let w = self.write_inode(inode);
            proof {
                assert(root_bytes(*inode) =~= root_bytes(mid));
            }
            w?;
            self.free_blocks_in(old_extent_blocks)?;
            return Ok(());
        }
        if extents.len() <= ROOT_EXTENT_MAX as usize {
            let mut root = ExtentBlock {
                pblk: 0,
                raw: Vec::new(),
                header: ExtentHeader {
                    eh_magic: EXT4_EXTENT_MAGIC,
                    eh_entries: extents.len() as u16,
                    eh_max: ROOT_EXTENT_MAX,
                    eh_depth: 0,
                    eh_generation: tree_generation,
                },
                idx: Vec::new(),
                leaf: vstd::slice::slice_to_vec(extents),
                tail_checksum: None,
            };
            self.encode_extent_root(inode, &mut root)?;
            let ghost mid = *inode;
            let w = self.write_inode(inode);
            proof {
                assert(root_bytes(*inode) =~= root_bytes(mid));
            }
            w?;
            self.free_blocks_in(old_extent_blocks)?;
            return Ok(());
        }
        let block_max = self.extent_block_max_entries()?;
        let block_max_usize = block_max as usize;
        let mut reused: usize = 0;
        let mut newly_allocated: Vec<u64> = Vec::new();
        let mut nodes: Vec<BuiltExtentNode> = Vec::new();
        let mut start: usize = 0;
        while start < extents.len()
            invariant
                self.wf(),
                self.unchanged_but_dev(*old(self)),
                *inode == *old(inode),
                block_max_usize == block_max,
                block_max >= 84,
                block_max == ((self.block_size - EXTENT_HEADER_SIZE) / EXTENT_ENTRY_SIZE as int) as u16,
                extents@.len() > ROOT_EXTENT_MAX,
                start <= extents@.len(),
                start == 0 <==> nodes@.len() == 0,
                nodes@.len() > 0 ==> nodes@[0].first_lblk == extents@[0].ee_block,
                nodes@.len() * block_max_usize >= start,
                start < extents@.len() ==> nodes@.len() * block_max_usize == start,
                nodes@.len() <= start,
                forall|k: int| 0 <= k < nodes@.len() ==> #[trigger] nodes@[k].depth == 0,
            decreases extents@.len() - start,
        {
            let end = if extents.len() - start > block_max_usize { start + block_max_usize } else { extents.len() };
            let chunk = vstd::slice::slice_subrange(extents, start, end);
            let pblk = self.next_extent_tree_block(old_extent_blocks, &mut reused, &mut newly_allocated)?;
            let no_idx: Vec<ExtentIdx> = Vec::new();
            let mut block = self.make_extent_block(pblk, 0, tree_generation, chunk, no_idx.as_slice())?;
            self.write_extent_block(ino, inode.i_generation, &mut block)?;
            let ghost n0 = nodes@.len();
            nodes.push(BuiltExtentNode { first_lblk: chunk[0].ee_block, pblk, depth: 0 });
            proof {
                assert((n0 + 1) * block_max_usize == n0 * block_max_usize + block_max_usize) by (nonlinear_arith);
            }
            start = end;
        }
        let mut cur_depth: u16 = 0;
        while nodes.len() > ROOT_EXTENT_MAX as usize
            invariant
                self.wf(),
                self.unchanged_but_dev(*old(self)),
                *inode == *old(inode),
                block_max_usize == block_max,
                block_max >= 84,
                block_max == ((self.block_size - EXTENT_HEADER_SIZE) / EXTENT_ENTRY_SIZE as int) as u16,
                nodes@.len() > 0,
                extents@.len() > ROOT_EXTENT_MAX,
                nodes@[0].first_lblk == extents@[0].ee_block,
                forall|k: int| 0 <= k < nodes@.len() ==> #[trigger] nodes@[k].depth == cur_depth,
            decreases nodes@.len(),
        {
            let child_depth = cur_depth;
            let parent_depth = match child_depth.checked_add(1) {
                Some(d) => d,
                None => return Err(Errno::EINVAL),
            };
            let mut parents: Vec<BuiltExtentNode> = Vec::new();
            let mut s: usize = 0;
            while s < nodes.len()
                invariant
                    self.wf(),
                    self.unchanged_but_dev(*old(self)),
                    *inode == *old(inode),
                    block_max_usize == block_max,
                    block_max >= 84,
                    block_max == ((self.block_size - EXTENT_HEADER_SIZE) / EXTENT_ENTRY_SIZE as int) as u16,
                    nodes@.len() > ROOT_EXTENT_MAX,
                    extents@.len() > ROOT_EXTENT_MAX,
                    nodes@[0].first_lblk == extents@[0].ee_block,
                    s <= nodes@.len(),
                    s == 0 <==> parents@.len() == 0,
                    parents@.len() > 0 ==> parents@[0].first_lblk == extents@[0].ee_block,
                    parents@.len() * block_max_usize >= s,
                    parents@.len() <= s,
                    s < nodes@.len() ==> parents@.len() * block_max_usize == s,
                    parents@.len() > 0 ==> (parents@.len() - 1) * block_max_usize < s,
                    forall|k: int| 0 <= k < parents@.len() ==> #[trigger] parents@[k].depth == parent_depth,
                decreases nodes@.len() - s,
            {
                let e = if nodes.len() - s > block_max_usize { s + block_max_usize } else { nodes.len() };
                let pblk = self.next_extent_tree_block(old_extent_blocks, &mut reused, &mut newly_allocated)?;
                let mut idx: Vec<ExtentIdx> = Vec::new();
                let mut j: usize = s;
                while j < e
                    invariant
                        s <= j <= e,
                        e <= nodes@.len(),
                        idx@.len() == j - s,
                        forall|k: int| 0 <= k < idx@.len() ==> #[trigger] idx@[k].ei_block == nodes@[s + k].first_lblk,
                    decreases e - j,
                {
                    idx.push(ExtentIdx { ei_block: nodes[j].first_lblk, ei_leaf: nodes[j].pblk });
                    j += 1;
                }
                let no_leaf: Vec<ExtentLeaf> = Vec::new();
                let mut block = self.make_extent_block(pblk, parent_depth, tree_generation, no_leaf.as_slice(), idx.as_slice())?;
                self.write_extent_block(ino, inode.i_generation, &mut block)?;
                let first = idx[0].ei_block;
                let ghost p0 = parents@.len();
                parents.push(BuiltExtentNode { first_lblk: first, pblk, depth: parent_depth });
                proof {
                    assert((p0 + 1) * block_max_usize == p0 * block_max_usize + block_max_usize) by (nonlinear_arith);
                    assert((p0 + 1 - 1) * block_max_usize == p0 * block_max_usize);
                }
                s = e;
            }
            proof {
                assert(parents@.len() < nodes@.len()) by (nonlinear_arith)
                    requires
                        parents@.len() * block_max_usize >= nodes@.len(),
                        parents@.len() <= nodes@.len(),
                        parents@.len() >= 1,
                        block_max_usize >= 84,
                        nodes@.len() > 4,
                        (parents@.len() - 1) * block_max_usize < nodes@.len(),
                {
                }
            }
            nodes = parents;
            cur_depth = parent_depth;
        }
        let root_depth = match cur_depth.checked_add(1) {
            Some(d) => d,
            None => return Err(Errno::EINVAL),
        };
        let mut root_idx: Vec<ExtentIdx> = Vec::new();
        let mut k: usize = 0;
        while k < nodes.len()
            invariant
                k <= nodes@.len(),
                root_idx@.len() == k,
                forall|q: int| 0 <= q < k ==> #[trigger] root_idx@[q] == (ExtentIdx { ei_block: nodes@[q].first_lblk,
                    ei_leaf: nodes@[q].pblk }),
            decreases nodes@.len() - k,
        {
            root_idx.push(ExtentIdx { ei_block: nodes[k].first_lblk, ei_leaf: nodes[k].pblk });
            k += 1;
        }
        let mut root = ExtentBlock {
            pblk: 0,
            raw: Vec::new(),
            header: ExtentHeader {
                eh_magic: EXT4_EXTENT_MAGIC,
                eh_entries: nodes.len() as u16,
                eh_max: ROOT_EXTENT_MAX,
                eh_depth: root_depth,
                eh_generation: tree_generation,
            },
            idx: root_idx,
            leaf: Vec::new(),
            tail_checksum: None,
        };
        self.encode_extent_root(inode, &mut root)?;
        let ghost mid = *inode;
        proof {
            assert(super::extent::idx_at(root_bytes(mid), 0).ei_block == nodes@[0].first_lblk);
        }
        self.write_inode(inode)?;
        proof {
            assert(root_bytes(*inode) =~= root_bytes(mid));
        }
        if reused < old_extent_blocks.len() {
            let rest = vstd::slice::slice_subrange(old_extent_blocks, reused, old_extent_blocks.len());
            self.free_blocks_in(rest)?;
        }
        Ok(())
    }
}


/// Physical starts fit in 48 bits.
pub open spec fn starts48(s: Seq<ExtentLeaf>) -> bool {
    forall|i: int| 0 <= i < s.len() ==> #[trigger] s[i].ee_start < 0x1_0000_0000_0000
}

/// Leaves parsed from bytes have 48-bit starts.
pub proof fn lemma_leaves_of_starts48(raw: Seq<u8>)
    ensures
        starts48(leaves_of(raw)),
{
    assert forall|i: int| 0 <= i < leaves_of(raw).len() implies #[trigger] leaves_of(raw)[i].ee_start < 0x1_0000_0000_0000 by {
        assert(leaf_at(raw, i).ee_start < 0x1_0000_0000_0000);
    }
}

/// Leaves with 48-bit starts end their physical runs within 64 bits.
pub proof fn lemma_starts48_pends(s: Seq<ExtentLeaf>)
    requires
        starts48(s),
    ensures
        pends_bounded(s),
{
    assert forall|i: int| 0 <= i < s.len() implies #[trigger] s[i].ee_start + s[i].ee_len_raw <= u64::MAX by {
        assert(s[i].ee_start < 0x1_0000_0000_0000);
    }
}

/// The leaves gathered from a tree have 48-bit starts.
pub proof fn lemma_collect_starts48(c: Context, ino: u32, generation: u32, depth: u16, idx: Seq<ExtentIdx>)
    ensures
        collect_idx(c, ino, generation, depth, idx) matches Ok(p) ==> starts48(p.0),
    decreases depth, idx.len(),
{
    if idx.len() > 0 {
        match extent_block_read(c, ino, generation, idx[0].ei_leaf) {
            Err(_) => {},
            Ok(raw) => {
                let h = header_of(raw);
                if h.eh_depth < depth {
                    lemma_leaves_of_starts48(raw);
                    if h.eh_depth != 0 {
                        lemma_collect_starts48(c, ino, generation, h.eh_depth, idxs_of(raw));
                    }
                    lemma_collect_starts48(c, ino, generation, depth, idx.drop_first());
                    let sub = if h.eh_depth == 0 {
                        Ok((leaves_of(raw), Seq::<u64>::empty()))
                    } else {
                        collect_idx(c, ino, generation, h.eh_depth, idxs_of(raw))
                    };
                    match sub {
                        Ok(p) => match collect_idx(c, ino, generation, depth, idx.drop_first()) {
                            Ok(t) => {
                                let all = p.0 + t.0;
                                assert forall|i: int| 0 <= i < all.len() implies #[trigger] all[i].ee_start < 0x1_0000_0000_0000 by {
                                    if i < p.0.len() {
                                        assert(all[i] == p.0[i]);
                                    } else {
                                        assert(all[i] == t.0[i - p.0.len()]);
                                    }
                                }
                            },
                            Err(_) => {},
                        },
                        Err(_) => {},
                    }
                }
            },
        }
    }
}

/// A snapshot's leaves have 48-bit starts.
pub proof fn lemma_snapshot_starts48(c: Context, ino: u32, inode: Ext4Inode)
    ensures
        snapshot_spec(c, ino, inode) matches Ok(s) ==> starts48(s.1) && pends_bounded(s.1),
{
    let root = root_bytes(inode);
    lemma_leaves_of_starts48(root);
    lemma_collect_starts48(c, ino, inode.i_generation, header_of(root).eh_depth, idxs_of(root));
    if snapshot_spec(c, ino, inode) is Ok {
        lemma_starts48_pends(snapshot_spec(c, ino, inode)->Ok_0.1);
    }
}

/// The inode is `old` with only its record bytes and sector count changed.
pub open spec fn only_raw_blocks_changed(new: Ext4Inode, old: Ext4Inode) -> bool {
    new == (Ext4Inode { raw: new.raw, i_blocks: new.i_blocks, ..old })
}

impl Context {
    /// Writes `extents` back as the inode's extent tree (see `rebuild_extent_tree`).
    pub fn replace_extent_tree(&mut self, ino: u32, inode: &mut Ext4Inode, tree_generation: u32, extents: &[ExtentLeaf],
        old_extent_blocks: &[u64]) -> (r: SysResult<()>)
        requires
            old(self).wf(),
            old(inode).raw@.len() >= INODE_BLOCK_ARRAY_OFF + INODE_BLOCK_ARRAY_SIZE,
        ensures
            final(self).unchanged_but_dev(*old(self)),
            only_raw_changed(*final(inode), *old(inode)),
            final(inode).raw@.len() == old(inode).raw@.len(),
            r is Ok ==> final(inode).raw@.len() == old(self).inode_size
                && rebuilt_root(root_bytes(*final(inode)), tree_generation, extents@),
            extents@.len() <= ROOT_EXTENT_MAX ==> rebuilt_root(root_bytes(*final(inode)), tree_generation, extents@),
    {
        self.rebuild_extent_tree(ino, inode, tree_generation, extents, old_extent_blocks)
    }

    /// Maps logical block `lblk` of the inode to physical block `pblk`: the tree is read,
    /// the mapping added, the tree written back and the sector count adjusted.
    pub fn insert_extent_1blk(&mut self, ino: u32, inode: &mut Ext4Inode, lblk: u32, pblk: u64) -> (r: SysResult<()>)
        requires
            old(self).wf(),
            old(inode).raw@.len() >= INODE_BLOCK_ARRAY_OFF + INODE_BLOCK_ARRAY_SIZE,
        ensures
            final(self).unchanged_but_dev(*old(self)),
            only_raw_blocks_changed(*final(inode), *old(inode)),
            final(inode).raw@.len() == old(inode).raw@.len(),
            !has_bits(old(inode).i_flags, INODE_FLAG_EXTENTS) ==> r == Err::<(), Errno>(Errno::EOPNOTSUPP)
                && final(self).dev@ == old(self).dev@ && *final(inode) == *old(inode),
            r is Ok ==> (snapshot_spec(*old(self), ino, *old(inode)) matches Ok(s) && validate_from(s.1, None) is Ok
                && !mapped(s.1, lblk as int)
                && exists|l2: Seq<ExtentLeaf>| #![trigger rebuilt_root(root_bytes(*final(inode)), s.0, l2)]
                    rebuilt_root(root_bytes(*final(inode)), s.0, l2)
                    && (forall|l: int, p: int| maps_to(l2, l, p) <==> (maps_to(s.1, l, p) || (l == lblk && p == pblk)))
                    && i_blocks_after(*old(self), old(inode).i_blocks, s.1, s.2.len() as int, l2) == Ok::<u64, Errno>(final(inode).i_blocks)),
    {
        let (tree_generation, mut extents, old_extent_blocks) = self.extent_tree_snapshot(ino, inode)?;
        let old_extents = vstd::slice::slice_to_vec(extents.as_slice());
        proof {
            lemma_snapshot_starts48(*old(self), ino, *old(inode));
        }
        insert_extent_leaf(&mut extents, lblk, pblk)?;
        let ghost pre_rebuild = *inode;
        self.rebuild_extent_tree(ino, inode, tree_generation, extents.as_slice(), old_extent_blocks.as_slice())?;
        let ghost after = *inode;
        self.update_i_blocks_from_extent_delta(inode, old_extents.as_slice(), old_extent_blocks.len(), extents.as_slice())?;
        proof {
            assert(root_bytes(*inode) == root_bytes(after));
            assert(rebuilt_root(root_bytes(*inode), tree_generation, extents@));
        }
        Ok(())
    }

    /// Unmaps logical blocks `first_lblk..=last_lblk_inclusive` of the inode: the tree is read,
    /// the range cut out, the tree written back, the freed data blocks returned and the sector
    /// count adjusted. An empty range changes nothing.
    pub fn remove_extent_range(&mut self, ino: u32, inode: &mut Ext4Inode, first_lblk: u32, last_lblk_inclusive: u32)
        -> (r: SysResult<()>)
        requires
            old(self).wf(),
            old(inode).raw@.len() >= INODE_BLOCK_ARRAY_OFF + INODE_BLOCK_ARRAY_SIZE,
        ensures
            final(self).unchanged_but_dev(*old(self)),
            only_raw_blocks_changed(*final(inode), *old(inode)),
            final(inode).raw@.len() == old(inode).raw@.len(),
            !has_bits(old(inode).i_flags, INODE_FLAG_EXTENTS) ==> r == Err::<(), Errno>(Errno::EOPNOTSUPP)
                && final(self).dev@ == old(self).dev@ && *final(inode) == *old(inode),
            has_bits(old(inode).i_flags, INODE_FLAG_EXTENTS) && first_lblk > last_lblk_inclusive ==> r is Ok
                && final(self).dev@ == old(self).dev@ && *final(inode) == *old(inode),
            r is Ok && first_lblk <= last_lblk_inclusive ==> (snapshot_spec(*old(self), ino, *old(inode)) matches Ok(s)
                && validate_from(s.1, None) is Ok
                && rebuilt_root(root_bytes(*final(inode)), s.0, kept_spec(s.1, first_lblk as int, last_lblk_inclusive + 1))
                && i_blocks_after(*old(self), old(inode).i_blocks, s.1, s.2.len() as int,
                    kept_spec(s.1, first_lblk as int, last_lblk_inclusive + 1)) == Ok::<u64, Errno>(final(inode).i_blocks)
                && exists|cs: Seq<Context>, rs: Seq<SysResult<()>>| #[trigger] free_chain(cs, rs,
                    freed_spec(s.1, first_lblk as int, last_lblk_inclusive + 1),
                    freed_spec(s.1, first_lblk as int, last_lblk_inclusive + 1).len() as int)
                    && cs[0].unchanged_but_dev(*old(self)) && cs.last() == *final(self)
                    && forall|k: int| 0 <= k < rs.len() ==> #[trigger] rs[k] is Ok),
    {
        if !flags_contain(inode.i_flags, INODE_FLAG_EXTENTS) {
            return Err(Errno::EOPNOTSUPP);
        }
        if first_lblk > last_lblk_inclusive {
            return Ok(());
        }
        let (tree_generation, extents, old_extent_blocks) = self.extent_tree_snapshot(ino, inode)?;
        proof {
            lemma_snapshot_starts48(*old(self), ino, *old(inode));
        }
        let (new_extents, blocks_to_free) = remove_extent_leaves(extents.as_slice(), first_lblk, last_lblk_inclusive)?;
        self.rebuild_extent_tree(ino, inode, tree_generation, new_extents.as_slice(), old_extent_blocks.as_slice())?;
        let ghost after = *inode;
        self.free_blocks_in(blocks_to_free.as_slice())?;
        self.update_i_blocks_from_extent_delta(inode, extents.as_slice(), old_extent_blocks.len(), new_extents.as_slice())?;
        proof {
            assert(root_bytes(*inode) == root_bytes(after));
        }
        Ok(())
    }
}

} // verus!
