//! Bit access on block and inode bitmaps.
use vstd::prelude::*;
use super::defs::Ext4BitmapBlock;

verus! {

/// Bit `i` of byte `b`.
pub open spec fn byte_bit(b: u8, i: u8) -> bool {
    (b >> i) & 1u8 == 1u8
}

/// Whether bit `idx` of the bitmap bytes is set; bits past the end read as clear.
pub open spec fn bit_of(raw: Seq<u8>, idx: int) -> bool {
    0 <= idx && idx / 8 < raw.len() && byte_bit(raw[idx / 8], (idx % 8) as u8)
}

proof fn lemma_mask_test(b: u8, i: u8)
    requires
        i < 8,
    ensures
        ((b & (1u8 << i)) != 0u8) == byte_bit(b, i),
{
    assert(((b & (1u8 << i)) != 0u8) == ((b >> i) & 1u8 == 1u8)) by (bit_vector)
        requires
            i < 8,
    ;
}

proof fn lemma_mask_set(b: u8, i: u8, j: u8)
    requires
        i < 8,
        j < 8,
    ensures
        byte_bit(b | (1u8 << i), j) == (i == j || byte_bit(b, j)),
{
    assert(((((b | (1u8 << i)) >> j) & 1u8) == 1u8) == (i == j || ((b >> j) & 1u8) == 1u8)) by (bit_vector)
        requires
            i < 8,
            j < 8,
    ;
}

proof fn lemma_mask_clear(b: u8, i: u8, j: u8)
    requires
        i < 8,
        j < 8,
    ensures
        byte_bit(b & !(1u8 << i), j) == (i != j && byte_bit(b, j)),
{
    assert(((((b & !(1u8 << i)) >> j) & 1u8) == 1u8) == (i != j && ((b >> j) & 1u8) == 1u8)) by (bit_vector)
        requires
            i < 8,
            j < 8,
    ;
}

/// Whether bit `idx` is set; bits past the end read as clear.
pub fn test_bit(bitmap: &Ext4BitmapBlock, idx: u32) -> (b: bool)
    ensures
        b == bit_of(bitmap.raw@, idx as int),
{
    let byte = (idx / 8) as usize;
    if byte >= bitmap.raw.len() {
        return false;
    }
    let bit = (idx % 8) as u8;
    proof {
        lemma_mask_test(bitmap.raw@[byte as int], bit);
    }
    (bitmap.raw[byte] & (1u8 << bit)) != 0
}

/// Sets bit `idx`; does nothing past the end.
pub fn set_bit(bitmap: &mut Ext4BitmapBlock, idx: u32)
    ensures
        final(bitmap).pblk == old(bitmap).pblk,
        final(bitmap).raw@.len() == old(bitmap).raw@.len(),
        forall|j: int| #[trigger] bit_of(final(bitmap).raw@, j) == ((j == idx && (idx / 8) < old(bitmap).raw@.len())
            || bit_of(old(bitmap).raw@, j)),
        forall|k: int| 0 <= k < old(bitmap).raw@.len() && k != idx / 8 ==> #[trigger] final(bitmap).raw@[k]
            == old(bitmap).raw@[k],
{
    let byte = (idx / 8) as usize;
    if byte >= bitmap.raw.len() {
        return;
    }
    let bit = (idx % 8) as u8;
    let old_b = bitmap.raw[byte];
    bitmap.raw.set(byte, old_b | (1u8 << bit));
    proof {
        assert forall|j: int| #[trigger] bit_of(bitmap.raw@, j) == ((j == idx && (idx / 8) < old(bitmap).raw@.len())
            || bit_of(old(bitmap).raw@, j)) by {
            if 0 <= j && j / 8 == byte {
                lemma_mask_set(old_b, bit, (j % 8) as u8);
            }
        }
    }
}

/// Clears bit `idx`; does nothing past the end.
pub fn clear_bit(bitmap: &mut Ext4BitmapBlock, idx: u32)
    ensures
        final(bitmap).pblk == old(bitmap).pblk,
        final(bitmap).raw@.len() == old(bitmap).raw@.len(),
        forall|j: int| #[trigger] bit_of(final(bitmap).raw@, j) == (j != idx && bit_of(old(bitmap).raw@, j)),
        forall|k: int| 0 <= k < old(bitmap).raw@.len() && k != idx / 8 ==> #[trigger] final(bitmap).raw@[k]
            == old(bitmap).raw@[k],
{
    let byte = (idx / 8) as usize;
    if byte >= bitmap.raw.len() {
        return;
    }
    let bit = (idx % 8) as u8;
    let old_b = bitmap.raw[byte];
    bitmap.raw.set(byte, old_b & !(1u8 << bit));
    proof {
        assert forall|j: int| #[trigger] bit_of(bitmap.raw@, j) == (j != idx && bit_of(old(bitmap).raw@, j)) by {
            if 0 <= j && j / 8 == byte {
                lemma_mask_clear(old_b, bit, (j % 8) as u8);
            }
        }
    }
}

/// Setting a bit and then clearing it restores every bit that was clear before.
pub proof fn law_set_then_clear(raw: Seq<u8>, set_raw: Seq<u8>, cleared: Seq<u8>, idx: int)
    requires
        !bit_of(raw, idx),
        forall|j: int| #[trigger] bit_of(set_raw, j) == ((j == idx && idx / 8 < raw.len()) || bit_of(raw, j)),
        forall|j: int| #[trigger] bit_of(cleared, j) == (j != idx && bit_of(set_raw, j)),
    ensures
        forall|j: int| #[trigger] bit_of(cleared, j) == bit_of(raw, j),
{
    assert forall|j: int| #[trigger] bit_of(cleared, j) == bit_of(raw, j) by {
        assert(bit_of(set_raw, j) == ((j == idx && idx / 8 < raw.len()) || bit_of(raw, j)));
    }
}

} // verus!
