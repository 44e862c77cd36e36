//! A block device held as a byte image.
use vstd::prelude::*;

verus! {

/// A block device whose contents are a byte image in memory.
pub struct BlockDevice {
    data: Vec<u8>,
    read_only: bool,
}

impl View for BlockDevice {
    type V = Seq<u8>;

    closed spec fn view(&self) -> Seq<u8> {
        self.data@
    }
}

impl BlockDevice {
    /// Whether the device refuses writes.
    pub closed spec fn spec_read_only(&self) -> bool {
        self.read_only
    }

    /// A device holding `data`.
    pub fn new(data: Vec<u8>, read_only: bool) -> (r: Self)
        ensures
            r@ == data@,
            r.spec_read_only() == read_only,
    {
        BlockDevice { data, read_only }
    }

    /// Size of the device in bytes.
    pub fn size(&self) -> (n: usize)
        ensures
            n == self@.len(),
    {
        self.data.len()
    }

    /// Whether the device refuses writes.
    pub fn is_readonly(&self) -> (b: bool)
        ensures
            b == self.spec_read_only(),
    {
        self.read_only
    }

    /// The device contents.
    pub fn bytes(&self) -> (r: &[u8])
        ensures
            r@ == self@,
    {
        self.data.as_slice()
    }

    /// Fills `dst` with the bytes at `offset`; fails when the range leaves the device.
    pub fn read_at(&self, offset: usize, dst: &mut Vec<u8>) -> (r: Result<(), ()>)
        ensures
            r is Ok <==> offset + old(dst)@.len() <= self@.len(),
            r is Ok ==> final(dst)@ == self@.subrange(offset as int, offset + old(dst)@.len()),
            r is Err ==> final(dst)@ == old(dst)@,
    {
        let n = dst.len();
        if offset > self.data.len() || n > self.data.len() - offset {
            return Err(());
        }
        let mut i: usize = 0;
        while i < n
            invariant
                i <= n,
                n == old(dst)@.len(),
                dst@.len() == n,
                offset + n <= self@.len(),
                self@.len() == self.data@.len(),
                self.data@.len() <= usize::MAX,
                forall|k: int| 0 <= k < i ==> #[trigger] dst@[k] == self@[offset + k],
            decreases n - i,
        {
            dst.set(i, self.data[offset + i]);
            i += 1;
        }
        assert(dst@ =~= self@.subrange(offset as int, offset + n));
        Ok(())
    }

    /// Writes `src` at `offset`; fails when the range leaves the device or the device is read-only.
    pub fn write_at(&mut self, offset: usize, src: &[u8]) -> (r: Result<(), ()>)
        ensures
            r is Ok <==> (offset + src@.len() <= old(self)@.len() && !old(self).spec_read_only()),
            r is Ok ==> final(self)@ == old(self)@.subrange(0, offset as int) + src@ + old(self)@.subrange(
                offset + src@.len(),
                old(self)@.len() as int,
            ),
            r is Err ==> final(self)@ == old(self)@,
            final(self).spec_read_only() == old(self).spec_read_only(),
    {
        if self.read_only || offset > self.data.len() || src.len() > self.data.len() - offset {
            return Err(());
        }
        crate::bytes::copy_into(&mut self.data, offset, src);
        Ok(())
    }
}

} // verus!
