//! Little-endian field access on byte buffers.
use vstd::prelude::*;
use vstd::slice::slice_subrange;
use crate::errno::{Errno, SysResult};

verus! {

/// Little-endian value of the two bytes of `s` at `off`.
pub open spec fn le16(s: Seq<u8>, off: int) -> int {
    s[off] as int + s[off + 1] as int * 0x100
}

/// Little-endian value of the four bytes of `s` at `off`.
pub open spec fn le32(s: Seq<u8>, off: int) -> int {
    le16(s, off) + le16(s, off + 2) * 0x10000
}

/// Little-endian value of the eight bytes of `s` at `off`.
pub open spec fn le64(s: Seq<u8>, off: int) -> int {
    le32(s, off) + le32(s, off + 4) * 0x1_0000_0000
}

/// `s` with the two bytes at `off` holding `v` in little-endian order.
pub open spec fn put16(s: Seq<u8>, off: int, v: int) -> Seq<u8> {
    s.update(off, (v % 0x100) as u8).update(off + 1, ((v / 0x100) % 0x100) as u8)
}

/// `s` with the four bytes at `off` holding `v` in little-endian order.
pub open spec fn put32(s: Seq<u8>, off: int, v: int) -> Seq<u8> {
    put16(put16(s, off, v % 0x10000), off + 2, (v / 0x10000) % 0x10000)
}

/// `s` with the bytes of `t` placed at `off`.
pub open spec fn splice(s: Seq<u8>, off: int, t: Seq<u8>) -> Seq<u8> {
    s.subrange(0, off) + t + s.subrange(off + t.len(), s.len() as int)
}

/// Splicing `t` in at `off` keeps every byte from `from` on, when `t` ends before `from`.
pub proof fn lemma_splice_tail(s: Seq<u8>, off: int, t: Seq<u8>, from: int)
    requires
        0 <= off,
        off + t.len() <= from,
        off + t.len() <= s.len(),
    ensures
        splice(s, off, t).len() == s.len(),
        forall|i: int| from <= i < s.len() ==> #[trigger] splice(s, off, t)[i] == s[i],
{
}

/// The little-endian encoding of a 32-bit value.
pub open spec fn le_bytes32(v: u32) -> Seq<u8> {
    seq![(v % 0x100) as u8, ((v / 0x100) % 0x100) as u8, ((v / 0x10000) % 0x100) as u8, ((v / 0x1000000) % 0x100) as u8]
}

/// Reading back two bytes gives the value written.
pub proof fn lemma_put16_get(s: Seq<u8>, off: int, v: int)
    requires
        0 <= off,
        off + 2 <= s.len(),
        0 <= v < 0x10000,
    ensures
        le16(put16(s, off, v), off) == v,
        put16(s, off, v).len() == s.len(),
        forall|i: int| 0 <= i < s.len() && (i < off || i >= off + 2) ==> #[trigger] put16(s, off, v)[i] == s[i],
{
}

/// Reading back four bytes gives the value written.
pub proof fn lemma_put32_get(s: Seq<u8>, off: int, v: int)
    requires
        0 <= off,
        off + 4 <= s.len(),
        0 <= v < 0x1_0000_0000,
    ensures
        le32(put32(s, off, v), off) == v,
        put32(s, off, v).len() == s.len(),
        forall|i: int| 0 <= i < s.len() && (i < off || i >= off + 4) ==> #[trigger] put32(s, off, v)[i] == s[i],
{
    lemma_put16_get(s, off, v % 0x10000);
    lemma_put16_get(put16(s, off, v % 0x10000), off + 2, (v / 0x10000) % 0x10000);
}

/// Bytes `off..off + len` of `buf`: `EINVAL` when the end overflows, `EIO` when it
/// lies past the buffer.
pub fn get_slice(buf: &[u8], off: usize, len: usize) -> (r: SysResult<&[u8]>)
    ensures
        match r {
            Ok(s) => off + len <= buf@.len() && s@ == buf@.subrange(off as int, off + len),
            Err(e) => (off + len > usize::MAX && e == Errno::EINVAL) || (off + len <= usize::MAX
                && off + len > buf@.len() && e == Errno::EIO),
        },
{
    let end = match off.checked_add(len) {
        Some(end) => end,
        None => return Err(Errno::EINVAL),
    };
    if end > buf.len() {
        return Err(Errno::EIO);
    }
    Ok(slice_subrange(buf, off, end))
}

/// The byte at `off`, or `EIO` past the end.
pub fn get_u8(buf: &[u8], off: usize) -> (r: SysResult<u8>)
    ensures
        match r {
            Ok(v) => off < buf@.len() && v == buf@[off as int],
            Err(e) => off >= buf@.len() && e == Errno::EIO,
        },
{
    if off < buf.len() {
        Ok(buf[off])
    } else {
        Err(Errno::EIO)
    }
}

/// The little-endian 16-bit field at `off`.
pub fn get_u16_le(buf: &[u8], off: usize) -> (r: SysResult<u16>)
    ensures
        match r {
            Ok(v) => off + 2 <= buf@.len() && v == le16(buf@, off as int),
            Err(e) => (off + 2 > usize::MAX && e == Errno::EINVAL) || (off + 2 <= usize::MAX
                && off + 2 > buf@.len() && e == Errno::EIO),
        },
{
    if off > usize::MAX - 2 {
        return Err(Errno::EINVAL);
    }
    if off + 2 > buf.len() {
        return Err(Errno::EIO);
    }
    Ok(buf[off] as u16 + buf[off + 1] as u16 * 0x100)
}

/// The little-endian 32-bit field at `off`.
pub fn get_u32_le(buf: &[u8], off: usize) -> (r: SysResult<u32>)
    ensures
        match r {
            Ok(v) => off + 4 <= buf@.len() && v == le32(buf@, off as int),
            Err(e) => (off + 4 > usize::MAX && e == Errno::EINVAL) || (off + 4 <= usize::MAX
                && off + 4 > buf@.len() && e == Errno::EIO),
        },
{
    if off > usize::MAX - 4 {
        return Err(Errno::EINVAL);
    }
    if off + 4 > buf.len() {
        return Err(Errno::EIO);
    }
    Ok(read_u32(buf, off))
}

/// The little-endian 16-bit field at `off`, which lies in the buffer.
pub fn read_u16(buf: &[u8], off: usize) -> (v: u16)
    requires
        off + 2 <= buf@.len(),
    ensures
        v == le16(buf@, off as int),
{
    buf[off] as u16 + buf[off + 1] as u16 * 0x100
}

/// The little-endian 32-bit field at `off`, which lies in the buffer.
pub fn read_u32(buf: &[u8], off: usize) -> (v: u32)
    requires
        off + 4 <= buf@.len(),
    ensures
        v == le32(buf@, off as int),
{
    let _n = buf.len();
    let lo = read_u16(buf, off) as u32;
    let hi = read_u16(buf, off + 2) as u32;
    lo + hi * 0x10000
}

/// The little-endian 64-bit field at `off`, which lies in the buffer.
pub fn read_u64(buf: &[u8], off: usize) -> (v: u64)
    requires
        off + 8 <= buf@.len(),
    ensures
        v == le64(buf@, off as int),
{
    let _n = buf.len();
    let lo = read_u32(buf, off) as u64;
    let hi = read_u32(buf, off + 4) as u64;
    lo + hi * 0x1_0000_0000
}

/// Stores `val` at `off`, or `EIO` past the end.
pub fn put_u8(buf: &mut Vec<u8>, off: usize, val: u8) -> (r: SysResult<()>)
    ensures
        match r {
            Ok(_) => off < old(buf)@.len() && final(buf)@ == old(buf)@.update(off as int, val),
            Err(e) => off >= old(buf)@.len() && e == Errno::EIO && final(buf)@ == old(buf)@,
        },
{
    if off < buf.len() {
        buf.set(off, val);
        Ok(())
    } else {
        Err(Errno::EIO)
    }
}

/// Stores `val` little-endian at `off`.
pub fn put_u16_le(buf: &mut Vec<u8>, off: usize, val: u16) -> (r: SysResult<()>)
    ensures
        match r {
            Ok(_) => off + 2 <= old(buf)@.len() && final(buf)@ == put16(old(buf)@, off as int, val as int),
            Err(e) => final(buf)@ == old(buf)@ && ((off + 2 > usize::MAX && e == Errno::EINVAL) || (off + 2
                <= usize::MAX && off + 2 > old(buf)@.len() && e == Errno::EIO)),
        },
{
    if off > usize::MAX - 2 {
        return Err(Errno::EINVAL);
    }
    if off + 2 > buf.len() {
        return Err(Errno::EIO);
    }
    write_u16(buf, off, val);
    Ok(())
}

/// Stores `val` little-endian at `off`.
pub fn put_u32_le(buf: &mut Vec<u8>, off: usize, val: u32) -> (r: SysResult<()>)
    ensures
        match r {
            Ok(_) => off + 4 <= old(buf)@.len() && final(buf)@ == put32(old(buf)@, off as int, val as int),
            Err(e) => final(buf)@ == old(buf)@ && ((off + 4 > usize::MAX && e == Errno::EINVAL) || (off + 4
                <= usize::MAX && off + 4 > old(buf)@.len() && e == Errno::EIO)),
        },
{
    if off > usize::MAX - 4 {
        return Err(Errno::EINVAL);
    }
    if off + 4 > buf.len() {
        return Err(Errno::EIO);
    }
    write_u32(buf, off, val);
    Ok(())
}

/// Stores `val` little-endian at `off`, which lies in the buffer.
pub fn write_u16(buf: &mut Vec<u8>, off: usize, val: u16)
    requires
        off + 2 <= old(buf)@.len(),
    ensures
        final(buf)@ == put16(old(buf)@, off as int, val as int),
{
    let _n = buf.len();
    buf.set(off, (val % 0x100) as u8);
    buf.set(off + 1, ((val / 0x100) % 0x100) as u8);
}

/// Stores `val` little-endian at `off`, which lies in the buffer.
pub fn write_u32(buf: &mut Vec<u8>, off: usize, val: u32)
    requires
        off + 4 <= old(buf)@.len(),
    ensures
        final(buf)@ == put32(old(buf)@, off as int, val as int),
{
    let _n = buf.len();
    write_u16(buf, off, (val % 0x10000) as u16);
    write_u16(buf, off + 2, ((val / 0x10000) % 0x10000) as u16);
}

/// The little-endian encoding of `v`.
pub fn u32_to_le_bytes(v: u32) -> (r: Vec<u8>)
    ensures
        r@ == le_bytes32(v),
{
    let mut r: Vec<u8> = Vec::new();
    r.push((v % 0x100) as u8);
    r.push(((v / 0x100) % 0x100) as u8);
    r.push(((v / 0x10000) % 0x100) as u8);
    r.push(((v / 0x1000000) % 0x100) as u8);
    assert(r@ =~= le_bytes32(v));
    r
}

/// Places `src` into `dst` at `off`.
pub fn copy_into(dst: &mut Vec<u8>, off: usize, src: &[u8])
    requires
        off + src@.len() <= old(dst)@.len(),
    ensures
        final(dst)@ == splice(old(dst)@, off as int, src@),
{
    let _n = dst.len();
    let mut i: usize = 0;
    while i < src.len()
        invariant
            i <= src@.len(),
            old(dst)@.len() <= usize::MAX,
            off + src@.len() <= old(dst)@.len(),
            dst@.len() == old(dst)@.len(),
            forall|k: int| 0 <= k < off ==> #[trigger] dst@[k] == old(dst)@[k],
            forall|k: int| off + src@.len() <= k < dst@.len() ==> #[trigger] dst@[k] == old(dst)@[k],
            forall|k: int| 0 <= k < i ==> #[trigger] dst@[off + k] == src@[k],
            forall|k: int| off + i <= k < off + src@.len() ==> #[trigger] dst@[k] == old(dst)@[k],
        decreases src@.len() - i,
    {
        dst.set(off + i, src[i]);
        i += 1;
    }
    assert(dst@ =~= splice(old(dst)@, off as int, src@)) by {
        assert forall|k: int| 0 <= k < dst@.len() implies dst@[k] == splice(old(dst)@, off as int, src@)[k] by {
            if off <= k < off + src@.len() {
                assert(dst@[off + (k - off)] == src@[k - off]);
            }
        }
    }
}

/// Sets bytes `from..to` of `dst` to zero.
pub fn fill_zero(dst: &mut Vec<u8>, from: usize, to: usize)
    requires
        from <= to <= old(dst)@.len(),
    ensures
        final(dst)@ == splice(old(dst)@, from as int, Seq::new((to - from) as nat, |i: int| 0u8)),
{
    let mut i: usize = from;
    while i < to
        invariant
            from <= i <= to <= old(dst)@.len(),
            dst@.len() == old(dst)@.len(),
            forall|k: int| 0 <= k < from ==> #[trigger] dst@[k] == old(dst)@[k],
            forall|k: int| i <= k < dst@.len() ==> #[trigger] dst@[k] == old(dst)@[k],
            forall|k: int| from <= k < i ==> #[trigger] dst@[k] == 0u8,
        decreases to - i,
    {
        dst.set(i, 0u8);
        i += 1;
    }
    assert(dst@ =~= splice(old(dst)@, from as int, Seq::new((to - from) as nat, |i: int| 0u8)));
}

/// A copy of bytes `from..to` of `src`.
pub fn copy_range(src: &[u8], from: usize, to: usize) -> (r: Vec<u8>)
    requires
        from <= to <= src@.len(),
    ensures
        r@ == src@.subrange(from as int, to as int),
{
    let mut r: Vec<u8> = Vec::new();
    let mut i: usize = from;
    while i < to
        invariant
            from <= i <= to <= src@.len(),
            r@ == src@.subrange(from as int, i as int),
        decreases to - i,
    {
        r.push(src[i]);
        i += 1;
        assert(r@ =~= src@.subrange(from as int, i as int));
    }
    r
}

/// Whether bytes `off..off + t.len()` of `s` equal `t`.
pub fn bytes_equal_at(s: &[u8], off: usize, t: &[u8]) -> (b: bool)
    requires
        off + t@.len() <= s@.len(),
    ensures
        b == (s@.subrange(off as int, off + t@.len()) == t@),
{
    let _n = s.len();
    let mut i: usize = 0;
    while i < t.len()
        invariant
            i <= t@.len(),
            s@.len() <= usize::MAX,
            off + t@.len() <= s@.len(),
            forall|k: int| 0 <= k < i ==> s@[off + k] == t@[k],
        decreases t@.len() - i,
    {
        if s[off + i] != t[i] {
            assert(s@.subrange(off as int, off + t@.len())[i as int] != t@[i as int]);
            return false;
        }
        i += 1;
    }
    assert(s@.subrange(off as int, off + t@.len()) =~= t@);
    true
}

/// Whether two byte strings are equal.
pub fn bytes_eq(a: &[u8], b: &[u8]) -> (r: bool)
    ensures
        r == (a@ == b@),
{
    if a.len() != b.len() {
        return false;
    }
    let r = bytes_equal_at(a, 0, b);
    assert(a@.subrange(0, b@.len() as int) =~= a@);
    r
}

} // verus!
