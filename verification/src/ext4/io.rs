//! Filesystem-block I/O and metadata locations.
use vstd::prelude::*;
use crate::errno::{Errno, SysResult};
use super::ctx::Context;

verus! {

/// What reading filesystem block `pblk` yields.
pub open spec fn block_read(c: Context, pblk: int) -> Result<Seq<u8>, Errno> {
    let bs = c.block_size as int;
    if pblk >= c.blocks_count {
        Err(Errno::EIO)
    } else if pblk * bs > u64::MAX || pblk * bs > usize::MAX {
        Err(Errno::EINVAL)
    } else if pblk * bs + bs > c.dev@.len() {
        Err(Errno::EIO)
    } else {
        Ok(c.dev@.subrange(pblk * bs, pblk * bs + bs))
    }
}

/// `dev` with `data` stored at byte `off`.
pub open spec fn dev_store(dev: Seq<u8>, off: int, data: Seq<u8>) -> Seq<u8> {
    dev.subrange(0, off) + data + dev.subrange(off + data.len(), dev.len() as int)
}

/// What writing `data` at filesystem block `pblk` does to the device, or the error it fails with.
pub open spec fn blocks_write(c: Context, pblk: int, data: Seq<u8>) -> Result<Seq<u8>, Errno> {
    let bs = c.block_size as int;
    let count = data.len() as int / bs;
    if data.len() == 0 {
        Ok(c.dev@)
    } else if data.len() as int % bs != 0 {
        Err(Errno::EINVAL)
    } else if pblk + count > u64::MAX {
        Err(Errno::EINVAL)
    } else if pblk + count > c.blocks_count {
        Err(Errno::EIO)
    } else if pblk * bs > u64::MAX || pblk * bs > usize::MAX {
        Err(Errno::EINVAL)
    } else if pblk * bs + data.len() > c.dev@.len() || c.dev.spec_read_only() {
        Err(Errno::EIO)
    } else {
        Ok(dev_store(c.dev@, pblk * bs, data))
    }
}

/// Descriptors per block.
pub open spec fn descs_per_block(c: Context) -> int {
    c.block_size as int / c.desc_size as int
}

/// Where the descriptor of `group` lives: block and byte offset in it.
pub open spec fn gd_location(c: Context, group: int) -> (u64, usize) {
    (
        (c.first_data_block + 1 + group / descs_per_block(c)) as u64,
        ((group % descs_per_block(c)) * c.desc_size) as usize,
    )
}

/// A write succeeded with the device as `blocks_write` says and nothing else changed.
pub open spec fn wrote(new: Context, old: Context, r: SysResult<()>, w: Result<Seq<u8>, Errno>) -> bool {
    &&& new.unchanged_but_dev(old)
    &&& match r {
        Ok(_) => w matches Ok(d) && new.dev@ == d,
        Err(e) => w == Err::<Seq<u8>, Errno>(e) && new.dev@ == old.dev@,
    }
}

/// Between device contents `a` and `b` only bytes of the blocks in `blocks` may differ.
pub open spec fn only_blocks_changed(c: Context, a: Seq<u8>, b: Seq<u8>, blocks: Set<int>) -> bool {
    &&& a.len() == b.len()
    &&& forall|i: int| 0 <= i < a.len() && !blocks.contains(i / (c.block_size as int)) ==> #[trigger] b[i] == a[i]
}

/// A byte of block `p` lies in block `p`.
pub proof fn lemma_byte_in_block(i: int, p: int, bs: int)
    requires
        bs > 0,
        p * bs <= i < p * bs + bs,
    ensures
        i / bs == p,
{
    assert(i / bs == p) by (nonlinear_arith)
        requires
            bs > 0,
            p * bs <= i < p * bs + bs,
    ;
}

/// Storing one block at block `p` changes only block `p`.
pub proof fn lemma_store_frame(c: Context, dev: Seq<u8>, p: int, data: Seq<u8>)
    requires
        c.wf(),
        0 <= p,
        data.len() == c.block_size,
        p * c.block_size + c.block_size <= dev.len(),
    ensures
        only_blocks_changed(c, dev, dev_store(dev, p * c.block_size, data), set![p]),
{
    let bs = c.block_size as int;
    let new = dev_store(dev, p * bs, data);
    assert(new.len() == dev.len());
    assert forall|i: int| 0 <= i < dev.len() && !set![p].contains(i / bs) implies #[trigger] new[i] == dev[i] by {
        if p * bs <= i < p * bs + bs {
            lemma_byte_in_block(i, p, bs);
        }
    }
}

/// A block outside the changed ones reads as before.
pub proof fn lemma_frame_block_read(a: Context, b: Context, q: int, blocks: Set<int>)
    requires
        a.wf(),
        b.unchanged_but_dev(a),
        only_blocks_changed(a, a.dev@, b.dev@, blocks),
        !blocks.contains(q),
        0 <= q,
    ensures
        block_read(b, q) == block_read(a, q),
{
    let bs = a.block_size as int;
    if block_read(a, q) is Ok {
        assert forall|k: int| 0 <= k < bs implies #[trigger] b.dev@.subrange(q * bs, q * bs + bs)[k]
            == a.dev@.subrange(q * bs, q * bs + bs)[k] by {
            lemma_byte_in_block(q * bs + k, q, bs);
            assert(b.dev@[q * bs + k] == a.dev@[q * bs + k]);
        }
        assert(b.dev@.subrange(q * bs, q * bs + bs) =~= a.dev@.subrange(q * bs, q * bs + bs));
    }
}

/// Changes to `blocks1` and then to `blocks2` change only their union.
pub proof fn lemma_frame_trans(c: Context, a: Seq<u8>, b: Seq<u8>, d: Seq<u8>, blocks1: Set<int>, blocks2: Set<int>)
    requires
        only_blocks_changed(c, a, b, blocks1),
        only_blocks_changed(c, b, d, blocks2),
    ensures
        only_blocks_changed(c, a, d, blocks1.union(blocks2)),
{
    assert forall|i: int| 0 <= i < a.len() && !blocks1.union(blocks2).contains(i / (c.block_size as int)) implies
        #[trigger] d[i] == a[i] by {
        assert(b[i] == a[i]);
    }
}

/// Reading back a block that a one-block write stored gives exactly the bytes written.
pub proof fn law_block_write_then_read(c: Context, n: Context, p: int, data: Seq<u8>)
    requires
        c.wf(),
        n.unchanged_but_dev(c),
        p >= 0,
        data.len() == c.block_size,
        blocks_write(c, p, data) == Ok::<Seq<u8>, Errno>(n.dev@),
    ensures
        block_read(n, p) == Ok::<Seq<u8>, Errno>(data),
{
    let bs = c.block_size as int;
    lemma_div_self(bs);
    assert(data.len() as int / bs == 1);
    let d = dev_store(c.dev@, p * bs, data);
    assert(n.dev@ == d);
    assert(d.len() == c.dev@.len());
    assert(d.subrange(p * bs, p * bs + bs) =~= data);
}

/// A positive number divides itself once.
pub proof fn lemma_div_self(b: int)
    requires
        b > 0,
    ensures
        b % b == 0,
        b / b == 1,
{
    assert(b % b == 0 && b / b == 1) by (nonlinear_arith)
        requires
            b > 0,
    ;
}

impl Context {
    /// Block and in-block offset of the descriptor of `group`.
    pub fn group_desc_location(&self, group: u32) -> (r: SysResult<(u64, usize)>)
        requires
            self.wf(),
        ensures
            match r {
                Ok(loc) => group < self.groups_count && loc == gd_location(*self, group as int)
                    && loc.1 as int == (group as int % descs_per_block(*self)) * self.desc_size
                    && loc.1 + self.desc_size <= self.block_size,
                Err(e) => e == Errno::EINVAL && group >= self.groups_count,
            },
    {
        if group >= self.groups_count {
            return Err(Errno::EINVAL);
        }
        let desc_size = self.desc_size as usize;
        let block_size = self.block_size as usize;
        if desc_size == 0 || block_size < desc_size {
            return Err(Errno::EINVAL);
        }
        let descs_per_block = block_size / desc_size;
        proof {
            assert(block_size / desc_size >= 1) by (nonlinear_arith)
                requires
                    block_size >= desc_size,
                    desc_size > 0,
            ;
        }
        if descs_per_block == 0 {
            return Err(Errno::EINVAL);
        }
        let group_usize = group as usize;
        let table_block_index = group_usize / descs_per_block;
        let first_gdt_block = self.first_data_block as u64 + 1;
        let pblk = first_gdt_block + table_block_index as u64;
        proof {
            assert((group_usize % descs_per_block) < descs_per_block);
            assert((group_usize % descs_per_block) * desc_size <= descs_per_block * desc_size) by (nonlinear_arith)
                requires
                    (group_usize % descs_per_block) < descs_per_block,
            ;
            assert(descs_per_block * desc_size <= block_size) by (nonlinear_arith)
                requires
                    descs_per_block == block_size / desc_size,
                    desc_size > 0,
            ;
        }
        let off = (group_usize % descs_per_block) * desc_size;
        proof {
            crate::ext4::group_desc::lemma_slot_fits(group as int, block_size as int, desc_size as int);
        }
        Ok((pblk, off))
    }

    /// Reads filesystem block `pblk`.
    pub fn read_fs_block(&self, pblk: u64) -> (r: SysResult<Vec<u8>>)
        requires
            self.wf(),
        ensures
            match r {
                Ok(v) => block_read(*self, pblk as int) == Ok::<Seq<u8>, Errno>(v@),
                Err(e) => block_read(*self, pblk as int) == Err::<Seq<u8>, Errno>(e),
            },
    {
        if pblk >= self.blocks_count {
            return Err(Errno::EIO);
        }
        let mut buf: Vec<u8> = vec![0u8; self.block_size as usize];
        proof {
            lemma_div_self(self.block_size as int);
        }
        self.read_fs_blocks_into(pblk, &mut buf)?;
        Ok(buf)
    }

    /// Fills `dst`, a whole number of blocks, from the device starting at block `start_pblk`.
    pub fn read_fs_blocks_into(&self, start_pblk: u64, dst: &mut Vec<u8>) -> (r: SysResult<()>)
        requires
            self.wf(),
        ensures
            ({
                let bs = self.block_size as int;
                let n = old(dst)@.len() as int;
                let off = start_pblk * bs;
                match r {
                    Ok(_) => n == 0 && final(dst)@ == old(dst)@ || (n % bs == 0 && start_pblk + n / bs
                        <= self.blocks_count && off <= u64::MAX && off <= usize::MAX && off + n <= self.dev@.len() && final(dst)@ == self.dev@.subrange(
                        off,
                        off + n,
                    )),
                    Err(e) => final(dst)@ == old(dst)@ && n > 0 && (
                    (n % bs != 0 && e == Errno::EINVAL)
                    || (n % bs == 0 && start_pblk + n / bs > u64::MAX && e == Errno::EINVAL)
                    || (n % bs == 0 && start_pblk + n / bs <= u64::MAX && start_pblk + n / bs > self.blocks_count && e == Errno::EIO)
                    || (n % bs == 0 && start_pblk + n / bs <= self.blocks_count && (off > u64::MAX || off > usize::MAX) && e == Errno::EINVAL)
                    || (n % bs == 0 && start_pblk + n / bs <= self.blocks_count && off <= u64::MAX && off <= usize::MAX && off + n > self.dev@.len() && e == Errno::EIO)),
                }
            }),
    {
        let block_size = self.block_size as usize;
        if dst.len() == 0 {
            return Ok(());
        }
        if dst.len() % block_size != 0 {
            return Err(Errno::EINVAL);
        }
        let block_count = (dst.len() / block_size) as u64;
        if start_pblk > u64::MAX - block_count {
            return Err(Errno::EINVAL);
        }
        let end_pblk = start_pblk + block_count;
        if end_pblk > self.blocks_count {
            return Err(Errno::EIO);
        }
        if start_pblk > u64::MAX / (self.block_size as u64) {
            proof {
                assert(start_pblk * self.block_size > u64::MAX) by (nonlinear_arith)
                    requires
                        start_pblk > u64::MAX / (self.block_size as u64),
                        self.block_size > 0,
                ;
            }
            return Err(Errno::EINVAL);
        }
        proof {
            assert(start_pblk * self.block_size <= u64::MAX) by (nonlinear_arith)
                requires
                    start_pblk <= u64::MAX / (self.block_size as u64),
                    self.block_size > 0,
            ;
        }
        let off = start_pblk * (self.block_size as u64);
        self.read_device(off, dst)
    }

    /// Writes `buf` at filesystem block `pblk`.
    pub fn write_fs_block(&mut self, pblk: u64, buf: &[u8]) -> (r: SysResult<()>)
        requires
            old(self).wf(),
        ensures
            wrote(*final(self), *old(self), r, blocks_write(*old(self), pblk as int, buf@)),
    {
        self.write_fs_blocks(pblk, buf)
    }

    /// Writes zeros over filesystem block `pblk`.
    pub fn zero_fs_block(&mut self, pblk: u64) -> (r: SysResult<()>)
        requires
            old(self).wf(),
        ensures
            wrote(*final(self), *old(self), r, blocks_write(*old(self), pblk as int, Seq::new(old(self).block_size as nat, |i: int| 0u8))),
    {
        let block_size = self.block_size as usize;
        let zero: Vec<u8> = vec![0u8; block_size];
        proof {
            assert(zero@ =~= Seq::new(old(self).block_size as nat, |i: int| 0u8));
        }
        self.write_fs_block(pblk, zero.as_slice())
    }

    /// Writes `buf`, a whole number of blocks, starting at block `start_pblk`.
    pub fn write_fs_blocks(&mut self, start_pblk: u64, buf: &[u8]) -> (r: SysResult<()>)
        requires
            old(self).wf(),
        ensures
            wrote(*final(self), *old(self), r, blocks_write(*old(self), start_pblk as int, buf@)),
    {
        let block_size = self.block_size as usize;
        if buf.len() == 0 {
            return Ok(());
        }
        if buf.len() % block_size != 0 {
            return Err(Errno::EINVAL);
        }
        let block_count = (buf.len() / block_size) as u64;
        if start_pblk > u64::MAX - block_count {
            return Err(Errno::EINVAL);
        }
        let end_pblk = start_pblk + block_count;
        if end_pblk > self.blocks_count {
            return Err(Errno::EIO);
        }
        if start_pblk > u64::MAX / (self.block_size as u64) {
            proof {
                assert(start_pblk * self.block_size > u64::MAX) by (nonlinear_arith)
                    requires
                        start_pblk > u64::MAX / (self.block_size as u64),
                        self.block_size > 0,
                ;
            }
            return Err(Errno::EINVAL);
        }
        proof {
            assert(start_pblk * self.block_size <= u64::MAX) by (nonlinear_arith)
                requires
                    start_pblk <= u64::MAX / (self.block_size as u64),
                    self.block_size > 0,
            ;
        }
        let off = start_pblk * (self.block_size as u64);
        self.write_device(off, buf)
    }
}

} // verus!
