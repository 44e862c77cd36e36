//! CRC-32C and CRC-16 checksums as used by ext4 metadata.
use vstd::prelude::*;

verus! {

/// Reflected CRC-32C (Castagnoli) polynomial.
pub const CRC32C_POLY: u32 = 0x82F6_3B78;
/// Reflected CRC-16 (IBM) polynomial.
pub const CRC16_POLY: u16 = 0xA001;
/// Starting value of ext4 CRC-32C sums.
pub const CRC32C_INIT: u32 = 0xFFFF_FFFF;

/// One bit step of the reflected CRC-32C register.
pub open spec fn crc32c_bit(c: u32) -> u32 {
    if c % 2 == 1 { (c / 2) ^ CRC32C_POLY } else { c / 2 }
}

/// The CRC-32C register after absorbing byte `b`.
pub open spec fn crc32c_byte(c: u32, b: u8) -> u32 {
    let x = c ^ (b as u32);
    crc32c_bit(crc32c_bit(crc32c_bit(crc32c_bit(crc32c_bit(crc32c_bit(crc32c_bit(crc32c_bit(x))))))))
}

/// The CRC-32C register after absorbing `s`, starting from `c`, without inversion.
pub open spec fn crc32c(c: u32, s: Seq<u8>) -> u32
    decreases s.len(),
{
    if s.len() == 0 {
        c
    } else {
        crc32c_byte(crc32c(c, s.drop_last()), s.last())
    }
}

/// One bit step of the reflected CRC-16 register.
pub open spec fn crc16_bit(c: u16) -> u16 {
    if c % 2 == 1 { (c / 2) ^ CRC16_POLY } else { c / 2 }
}

/// The CRC-16 register after absorbing byte `b`.
pub open spec fn crc16_byte(c: u16, b: u8) -> u16 {
    let x = c ^ (b as u16);
    crc16_bit(crc16_bit(crc16_bit(crc16_bit(crc16_bit(crc16_bit(crc16_bit(crc16_bit(x))))))))
}

/// The CRC-16 register after absorbing `s`, starting from `c`, without inversion.
pub open spec fn crc16(c: u16, s: Seq<u8>) -> u16
    decreases s.len(),
{
    if s.len() == 0 {
        c
    } else {
        crc16_byte(crc16(c, s.drop_last()), s.last())
    }
}

/// Absorbing two pieces in turn is absorbing their concatenation.
pub proof fn lemma_crc32c_append(c: u32, a: Seq<u8>, b: Seq<u8>)
    ensures
        crc32c(crc32c(c, a), b) == crc32c(c, a + b),
    decreases b.len(),
{
    if b.len() == 0 {
        assert(a + b =~= a);
    } else {
        lemma_crc32c_append(c, a, b.drop_last());
        assert((a + b).drop_last() =~= a + b.drop_last());
        assert((a + b).last() == b.last());
    }
}

/// Absorbing two pieces in turn is absorbing their concatenation.
pub proof fn lemma_crc16_append(c: u16, a: Seq<u8>, b: Seq<u8>)
    ensures
        crc16(crc16(c, a), b) == crc16(c, a + b),
    decreases b.len(),
{
    if b.len() == 0 {
        assert(a + b =~= a);
    } else {
        lemma_crc16_append(c, a, b.drop_last());
        assert((a + b).drop_last() =~= a + b.drop_last());
        assert((a + b).last() == b.last());
    }
}

fn crc32c_step(c: u32) -> (r: u32)
    ensures
        r == crc32c_bit(c),
{
    if c % 2 == 1 { (c / 2) ^ CRC32C_POLY } else { c / 2 }
}

fn crc16_step(c: u16) -> (r: u16)
    ensures
        r == crc16_bit(c),
{
    if c % 2 == 1 { (c / 2) ^ CRC16_POLY } else { c / 2 }
}

/// Absorbs one byte into a CRC-32C register.
pub fn crc32c_update_byte(c: u32, b: u8) -> (r: u32)
    ensures
        r == crc32c_byte(c, b),
{
    let mut x = c ^ (b as u32);
    x = crc32c_step(x);
    x = crc32c_step(x);
    x = crc32c_step(x);
    x = crc32c_step(x);
    x = crc32c_step(x);
    x = crc32c_step(x);
    x = crc32c_step(x);
    crc32c_step(x)
}

/// Absorbs one byte into a CRC-16 register.
pub fn crc16_update_byte(c: u16, b: u8) -> (r: u16)
    ensures
        r == crc16_byte(c, b),
{
    let mut x = c ^ (b as u16);
    x = crc16_step(x);
    x = crc16_step(x);
    x = crc16_step(x);
    x = crc16_step(x);
    x = crc16_step(x);
    x = crc16_step(x);
    x = crc16_step(x);
    crc16_step(x)
}

/// Absorbs `buf` into the CRC-32C register `seed`.
pub fn crc32c_update(seed: u32, buf: &[u8]) -> (r: u32)
    ensures
        r == crc32c(seed, buf@),
{
    let mut c = seed;
    let mut i: usize = 0;
    while i < buf.len()
        invariant
            i <= buf@.len(),
            c == crc32c(seed, buf@.subrange(0, i as int)),
        decreases buf@.len() - i,
    {
        assert(buf@.subrange(0, i + 1).drop_last() =~= buf@.subrange(0, i as int));
        c = crc32c_update_byte(c, buf[i]);
        i += 1;
    }
    assert(buf@.subrange(0, i as int) =~= buf@);
    c
}

/// Absorbs `buf` into the CRC-16 register `seed`.
pub fn crc16_update(seed: u16, buf: &[u8]) -> (r: u16)
    ensures
        r == crc16(seed, buf@),
{
    let mut c = seed;
    let mut i: usize = 0;
    while i < buf.len()
        invariant
            i <= buf@.len(),
            c == crc16(seed, buf@.subrange(0, i as int)),
        decreases buf@.len() - i,
    {
        assert(buf@.subrange(0, i + 1).drop_last() =~= buf@.subrange(0, i as int));
        c = crc16_update_byte(c, buf[i]);
        i += 1;
    }
    assert(buf@.subrange(0, i as int) =~= buf@);
    c
}

} // verus!
