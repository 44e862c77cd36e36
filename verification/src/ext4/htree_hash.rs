//! Name hashes of hashed-index directories: legacy, TEA and half-MD4, signed and unsigned.
use vstd::prelude::*;
use vstd::wrapping::u32_specs;
use crate::errno::{Errno, SysResult};
use super::defs::EXT4_MAX_NAME_LEN;

verus! {

/// Superblock flag: names hash with unsigned characters.
pub const EXT4_SUPERBLOCK_FLAGS_UNSIGNED_HASH: u32 = 0x0002;

/// The hash function of a hashed-index directory.
#[derive(Clone, Copy, PartialEq, Eq, Structural, Debug)]
pub enum HTreeHashVersion {
    Legacy,
    HalfMd4,
    Tea,
    LegacyUnsigned,
    HalfMd4Unsigned,
    TeaUnsigned,
}

/// The hash version an on-disk code names, after the superblock's unsigned flag.
pub open spec fn hash_version_of(code: int) -> Option<HTreeHashVersion> {
    if code == 0 { Some(HTreeHashVersion::Legacy) }
    else if code == 1 { Some(HTreeHashVersion::HalfMd4) }
    else if code == 2 { Some(HTreeHashVersion::Tea) }
    else if code == 3 { Some(HTreeHashVersion::LegacyUnsigned) }
    else if code == 4 { Some(HTreeHashVersion::HalfMd4Unsigned) }
    else if code == 5 { Some(HTreeHashVersion::TeaUnsigned) }
    else { None }
}

/// Whether a hash version reads name bytes as unsigned.
pub open spec fn spec_unsigned(v: HTreeHashVersion) -> bool {
    v == HTreeHashVersion::LegacyUnsigned || v == HTreeHashVersion::HalfMd4Unsigned || v == HTreeHashVersion::TeaUnsigned
}

impl HTreeHashVersion {
    /// The hash version of an on-disk code; the superblock's unsigned flag turns the three
    /// signed versions into their unsigned ones. `EOPNOTSUPP` for an unknown code.
    pub fn from_raw(version: u8, superblock_flags: u32) -> (r: SysResult<HTreeHashVersion>)
        ensures
            ({
                let code = if version <= 2 && superblock_flags & EXT4_SUPERBLOCK_FLAGS_UNSIGNED_HASH != 0 {
                    version + 3
                } else {
                    version as int
                };
                match hash_version_of(code) {
                    Some(v) => r == Ok::<HTreeHashVersion, Errno>(v),
                    None => r == Err::<HTreeHashVersion, Errno>(Errno::EOPNOTSUPP),
                }
            }),
    {
        let v = if version <= 2 && superblock_flags & EXT4_SUPERBLOCK_FLAGS_UNSIGNED_HASH != 0 {
            version + 3
        } else {
            version
        };
        match v {
            0 => Ok(HTreeHashVersion::Legacy),
            1 => Ok(HTreeHashVersion::HalfMd4),
            2 => Ok(HTreeHashVersion::Tea),
            3 => Ok(HTreeHashVersion::LegacyUnsigned),
            4 => Ok(HTreeHashVersion::HalfMd4Unsigned),
            5 => Ok(HTreeHashVersion::TeaUnsigned),
            _ => Err(Errno::EOPNOTSUPP),
        }
    }

    /// Whether the version reads name bytes as unsigned.
    pub fn unsigned(self) -> (r: bool)
        ensures
            r == spec_unsigned(self),
    {
        match self {
            HTreeHashVersion::LegacyUnsigned | HTreeHashVersion::HalfMd4Unsigned | HTreeHashVersion::TeaUnsigned => true,
            _ => false,
        }
    }
}

/// A name byte as a hash input: zero- or sign-extended.
pub open spec fn char_value(b: u8, unsigned_char: bool) -> u32 {
    if unsigned_char || b < 128 { b as u32 } else { (b + 0xFFFF_FF00) as u32 }
}

/// Clears the low bit and keeps the result clear of the end-of-index marker.
pub open spec fn normalize(h: u32) -> u32 {
    let c = h & 0xFFFF_FFFE;
    if c == 0xFFFF_FFFE { 0xFFFF_FFFC } else { c }
}

/// One step of the legacy hash.
pub open spec fn legacy_step(h1: u32, h2: u32, b: u8, unsigned_char: bool) -> (u32, u32) {
    let h0 = u32_specs::wrapping_add(h2, h1 ^ u32_specs::wrapping_mul(char_value(b, unsigned_char), 0x6d22f5));
    let h0 = if h0 & 0x8000_0000 != 0 { u32_specs::wrapping_sub(h0, 0x7fff_ffff) } else { h0 };
    (h0, h1)
}

/// The legacy hash state after the first `n` bytes of `name`.
pub open spec fn legacy_state(name: Seq<u8>, n: int, unsigned_char: bool) -> (u32, u32)
    decreases n,
{
    if n <= 0 {
        (0x12a3_fe2d, 0x37ab_e8f9)
    } else {
        let (h1, h2) = legacy_state(name, n - 1, unsigned_char);
        legacy_step(h1, h2, name[n - 1], unsigned_char)
    }
}

/// The legacy hash of a name.
pub open spec fn legacy_hash(name: Seq<u8>, unsigned_char: bool) -> u32 {
    u32_specs::wrapping_shl(legacy_state(name, name.len() as int, unsigned_char).0, 1)
}

/// `word` with the first `n` bytes of `bytes` shifted in.
pub open spec fn fold_bytes(word: u32, bytes: Seq<u8>, n: int, unsigned_char: bool) -> u32
    decreases n,
{
    if n <= 0 {
        word
    } else {
        u32_specs::wrapping_add(u32_specs::wrapping_shl(fold_bytes(word, bytes, n - 1, unsigned_char), 8),
            char_value(bytes[n - 1], unsigned_char))
    }
}

/// The padding word of a name of `len` bytes.
pub open spec fn pad_word(len: int) -> u32 {
    (len * 0x0101_0101) as u32
}

/// Word `w` of the hash input built from the first `output_len` bytes of `name`: four bytes
/// each from the padding, the last partial word, then padding, then zeros.
pub open spec fn prep_word(name: Seq<u8>, output_len: int, unsigned_char: bool, w: int) -> u32 {
    let len = if name.len() < output_len { name.len() as int } else { output_len };
    let pad = pad_word(name.len() as int);
    let full = len / 4;
    if w >= output_len / 4 {
        0
    } else if w < full {
        fold_bytes(pad, name.subrange(4 * w, 4 * w + 4), 4, unsigned_char)
    } else if w == full {
        fold_bytes(pad, name.subrange(4 * w, len), len - 4 * w, unsigned_char)
    } else {
        pad
    }
}

/// The eight-word hash input for a chunk of a name.
pub open spec fn prep_spec(name: Seq<u8>, output_len: int, unsigned_char: bool) -> Seq<u32> {
    Seq::new(8, |w: int| prep_word(name, output_len, unsigned_char, w))
}

/// One TEA round.
pub open spec fn tea_round(x: u32, y: u32, d: Seq<u32>, i: u32) -> (u32, u32) {
    let sum = u32_specs::wrapping_mul(i, 0x9e37_79b9);
    let x2 = u32_specs::wrapping_add(x,
        u32_specs::wrapping_add(u32_specs::wrapping_shl(y, 4), d[0]) ^ u32_specs::wrapping_add(y, sum)
            ^ u32_specs::wrapping_add(u32_specs::wrapping_shr(y, 5), d[1]));
    let y2 = u32_specs::wrapping_add(y,
        u32_specs::wrapping_add(u32_specs::wrapping_shl(x2, 4), d[2]) ^ u32_specs::wrapping_add(x2, sum)
            ^ u32_specs::wrapping_add(u32_specs::wrapping_shr(x2, 5), d[3]));
    (x2, y2)
}

/// The TEA pair after rounds `1..=n`.
pub open spec fn tea_rounds(x: u32, y: u32, d: Seq<u32>, n: int) -> (u32, u32)
    decreases n,
{
    if n <= 0 {
        (x, y)
    } else {
        let (a, b) = tea_rounds(x, y, d, n - 1);
        tea_round(a, b, d, n as u32)
    }
}

/// The state after one TEA transform.
pub open spec fn tea_spec(s: Seq<u32>, d: Seq<u32>) -> Seq<u32> {
    let (x, y) = tea_rounds(s[0], s[1], d, 16);
    s.update(0, u32_specs::wrapping_add(s[0], x)).update(1, u32_specs::wrapping_add(s[1], y))
}

/// Rotation left by `s` bits, `0 < s < 32`.
pub open spec fn rotl_spec(x: u32, s: u32) -> u32 {
    (x << s) | (x >> ((32 - s) as u32))
}

/// MD4 round functions.
pub open spec fn ff(a: u32, b: u32, c: u32, d: u32, x: u32, s: u32) -> u32 {
    rotl_spec(u32_specs::wrapping_add(u32_specs::wrapping_add(a, (b & c) | (!b & d)), x), s)
}

pub open spec fn gg(a: u32, b: u32, c: u32, d: u32, x: u32, s: u32) -> u32 {
    rotl_spec(u32_specs::wrapping_add(u32_specs::wrapping_add(u32_specs::wrapping_add(a, (b & c) | (b & d) | (c & d)), x), 0x5a82_7999), s)
}

pub open spec fn hh(a: u32, b: u32, c: u32, d: u32, x: u32, s: u32) -> u32 {
    rotl_spec(u32_specs::wrapping_add(u32_specs::wrapping_add(u32_specs::wrapping_add(a, b ^ c ^ d), x), 0x6ed9_eba1), s)
}

/// The state after one half-MD4 transform.
pub open spec fn half_md4_spec(s: Seq<u32>, x: Seq<u32>) -> Seq<u32> {
    let (a, b, c, d) = (s[0], s[1], s[2], s[3]);
    let a = ff(a, b, c, d, x[0], 3);
    let d = ff(d, a, b, c, x[1], 7);
    let c = ff(c, d, a, b, x[2], 11);
    let b = ff(b, c, d, a, x[3], 19);
    let a = ff(a, b, c, d, x[4], 3);
    let d = ff(d, a, b, c, x[5], 7);
    let c = ff(c, d, a, b, x[6], 11);
    let b = ff(b, c, d, a, x[7], 19);
    let a = gg(a, b, c, d, x[1], 3);
    let d = gg(d, a, b, c, x[3], 5);
    let c = gg(c, d, a, b, x[5], 9);
    let b = gg(b, c, d, a, x[7], 13);
    let a = gg(a, b, c, d, x[0], 3);
    let d = gg(d, a, b, c, x[2], 5);
    let c = gg(c, d, a, b, x[4], 9);
    let b = gg(b, c, d, a, x[6], 13);
    let a = hh(a, b, c, d, x[3], 3);
    let d = hh(d, a, b, c, x[7], 9);
    let c = hh(c, d, a, b, x[2], 11);
    let b = hh(b, c, d, a, x[6], 15);
    let a = hh(a, b, c, d, x[1], 3);
    let d = hh(d, a, b, c, x[5], 9);
    let c = hh(c, d, a, b, x[0], 11);
    let b = hh(b, c, d, a, x[4], 15);
    seq![u32_specs::wrapping_add(s[0], a), u32_specs::wrapping_add(s[1], b), u32_specs::wrapping_add(s[2], c),
        u32_specs::wrapping_add(s[3], d)]
}

/// The state after hashing a name chunk by chunk with the TEA or half-MD4 transform.
pub open spec fn chunked_state(name: Seq<u8>, state: Seq<u32>, md4: bool, unsigned_char: bool) -> Seq<u32>
    decreases name.len(),
{
    let chunk: int = if md4 { 32 } else { 16 };
    if name.len() == 0 {
        state
    } else {
        let data = prep_spec(name, chunk, unsigned_char);
        let next = if md4 { half_md4_spec(state, data) } else { tea_spec(state, data) };
        let step = if (name.len() as int) < chunk { name.len() as int } else { chunk };
        chunked_state(name.subrange(step, name.len() as int), next, md4, unsigned_char)
    }
}

/// The directory hash of a name.
pub open spec fn hash_spec(name: Seq<u8>, seed: Seq<u32>, v: HTreeHashVersion) -> Result<u32, Errno> {
    if name.len() == 0 || name.len() > EXT4_MAX_NAME_LEN {
        Err(Errno::EOPNOTSUPP)
    } else {
        match v {
            HTreeHashVersion::Tea | HTreeHashVersion::TeaUnsigned =>
                Ok(normalize(chunked_state(name, seed, false, spec_unsigned(v))[0])),
            HTreeHashVersion::Legacy | HTreeHashVersion::LegacyUnsigned =>
                Ok(normalize(legacy_hash(name, spec_unsigned(v)))),
            HTreeHashVersion::HalfMd4 | HTreeHashVersion::HalfMd4Unsigned =>
                Ok(normalize(chunked_state(name, seed, true, spec_unsigned(v))[1])),
        }
    }
}

/// A name byte as a hash input.
pub fn htree_char_value(byte: u8, unsigned_char: bool) -> (r: u32)
    ensures
        r == char_value(byte, unsigned_char),
{
    if unsigned_char || byte < 128 { byte as u32 } else { byte as u32 + 0xFFFF_FF00 }
}

/// Clears the low bit of a hash and keeps it clear of the end-of-index marker.
pub fn htree_normalize_hash(hash: u32) -> (r: u32)
    ensures
        r == normalize(hash),
{
    let mut h = hash & 0xFFFF_FFFE;
    if h == 0xFFFF_FFFE {
        h = 0xFFFF_FFFC;
    }
    h
}

/// The legacy directory hash of a name.
pub fn htree_legacy_hash(name: &[u8], unsigned_char: bool) -> (r: u32)
    ensures
        r == legacy_hash(name@, unsigned_char),
{
    let mut h1: u32 = 0x12a3_fe2d;
    let mut h2: u32 = 0x37ab_e8f9;
    let multi: u32 = 0x6d22f5;
    let mut i: usize = 0;
    while i < name.len()
        invariant
            i <= name@.len(),
            (h1, h2) == legacy_state(name@, i as int, unsigned_char),
            multi == 0x6d22f5,
        decreases name@.len() - i,
    {
        let value = htree_char_value(name[i], unsigned_char);
        let mut h0 = h2.wrapping_add(h1 ^ value.wrapping_mul(multi));
        if h0 & 0x8000_0000 != 0 {
            h0 = h0.wrapping_sub(0x7fff_ffff);
        }
        h2 = h1;
        h1 = h0;
        i += 1;
    }
    h1.wrapping_shl(1)
}

/// Rotation left by `s` bits, `0 < s < 32`.
pub fn rotl(x: u32, s: u32) -> (r: u32)
    requires
        0 < s < 32,
    ensures
        r == rotl_spec(x, s),
{
    (x << s) | (x >> (32 - s))
}

/// An MD4 first-round step.
pub fn md4_ff(target: &mut u32, b: u32, c: u32, d: u32, x: u32, shift: u32)
    requires
        0 < shift < 32,
    ensures
        *final(target) == ff(*old(target), b, c, d, x, shift),
{
    *target = rotl(target.wrapping_add((b & c) | (!b & d)).wrapping_add(x), shift);
}

/// An MD4 second-round step.
pub fn md4_gg(target: &mut u32, b: u32, c: u32, d: u32, x: u32, shift: u32)
    requires
        0 < shift < 32,
    ensures
        *final(target) == gg(*old(target), b, c, d, x, shift),
{
    *target = rotl(target.wrapping_add((b & c) | (b & d) | (c & d)).wrapping_add(x).wrapping_add(0x5a82_7999), shift);
}

/// An MD4 third-round step.
pub fn md4_hh(target: &mut u32, b: u32, c: u32, d: u32, x: u32, shift: u32)
    requires
        0 < shift < 32,
    ensures
        *final(target) == hh(*old(target), b, c, d, x, shift),
{
    *target = rotl(target.wrapping_add(b ^ c ^ d).wrapping_add(x).wrapping_add(0x6ed9_eba1), shift);
}

/// One half-MD4 transform of the state over eight input words.
pub fn htree_half_md4(state: &mut Vec<u32>, data: &Vec<u32>)
    requires
        old(state)@.len() == 4,
        data@.len() == 8,
    ensures
        final(state)@ == half_md4_spec(old(state)@, data@),
{
    let mut a = state[0];
    let mut b = state[1];
    let mut c = state[2];
    let mut d = state[3];
    md4_ff(&mut a, b, c, d, data[0], 3);
    md4_ff(&mut d, a, b, c, data[1], 7);
    md4_ff(&mut c, d, a, b, data[2], 11);
    md4_ff(&mut b, c, d, a, data[3], 19);
    md4_ff(&mut a, b, c, d, data[4], 3);
    md4_ff(&mut d, a, b, c, data[5], 7);
    md4_ff(&mut c, d, a, b, data[6], 11);
    md4_ff(&mut b, c, d, a, data[7], 19);
    md4_gg(&mut a, b, c, d, data[1], 3);
    md4_gg(&mut d, a, b, c, data[3], 5);
    md4_gg(&mut c, d, a, b, data[5], 9);
    md4_gg(&mut b, c, d, a, data[7], 13);
    md4_gg(&mut a, b, c, d, data[0], 3);
    md4_gg(&mut d, a, b, c, data[2], 5);
    md4_gg(&mut c, d, a, b, data[4], 9);
    md4_gg(&mut b, c, d, a, data[6], 13);
    md4_hh(&mut a, b, c, d, data[3], 3);
    md4_hh(&mut d, a, b, c, data[7], 9);
    md4_hh(&mut c, d, a, b, data[2], 11);
    md4_hh(&mut b, c, d, a, data[6], 15);
    md4_hh(&mut a, b, c, d, data[1], 3);
    md4_hh(&mut d, a, b, c, data[5], 9);
    md4_hh(&mut c, d, a, b, data[0], 11);
    md4_hh(&mut b, c, d, a, data[4], 15);
    let s0 = state[0].wrapping_add(a);
    let s1 = state[1].wrapping_add(b);
    let s2 = state[2].wrapping_add(c);
    let s3 = state[3].wrapping_add(d);
    state.set(0, s0);
    state.set(1, s1);
    state.set(2, s2);
    state.set(3, s3);
    assert(state@ =~= half_md4_spec(old(state)@, data@));
}

/// One TEA transform of the first two state words over the first four input words.
pub fn htree_tea(state: &mut Vec<u32>, data: &Vec<u32>)
    requires
        old(state)@.len() == 4,
        data@.len() == 8,
    ensures
        final(state)@ == tea_spec(old(state)@, data@),
{
    let mut x = state[0];
    let mut y = state[1];
    let mut i: u32 = 1;
    while i <= 16
        invariant
            1 <= i <= 17,
            data@.len() == 8,
            (x, y) == tea_rounds(old(state)@[0], old(state)@[1], data@, i - 1),
            state@ == old(state)@,
        decreases 17 - i,
    {
        let sum = i.wrapping_mul(0x9e37_79b9);
        x = x.wrapping_add(y.wrapping_shl(4).wrapping_add(data[0]) ^ y.wrapping_add(sum) ^ y.wrapping_shr(5).wrapping_add(data[1]));
        y = y.wrapping_add(x.wrapping_shl(4).wrapping_add(data[2]) ^ x.wrapping_add(sum) ^ x.wrapping_shr(5).wrapping_add(data[3]));
        i += 1;
    }
    let s0 = state[0].wrapping_add(x);
    let s1 = state[1].wrapping_add(y);
    state.set(0, s0);
    state.set(1, s1);
}

/// The eight-word hash input for the first `output_len` bytes of a name.
pub fn htree_prep_hashbuf(name: &[u8], output_len: usize, unsigned_char: bool) -> (r: Vec<u32>)
    requires
        name@.len() <= EXT4_MAX_NAME_LEN,
        output_len == 16 || output_len == 32,
    ensures
        r@ == prep_spec(name@, output_len as int, unsigned_char),
{
    let n = name.len() as u32;
    let padding: u32 = n * 0x0101_0101;
    let output_words = output_len / 4;
    let len = if name.len() < output_len { name.len() } else { output_len };
    let mut data: Vec<u32> = vec![0u32, 0, 0, 0, 0, 0, 0, 0];
    let mut word = padding;
    let mut word_index: usize = 0;
    let mut i: usize = 0;
    let ghost spec = prep_spec(name@, output_len as int, unsigned_char);
    while i < len
        invariant
            len <= name@.len(),
            len <= output_len,
            len == (if name@.len() < output_len { name@.len() as int } else { output_len as int }),
            padding == pad_word(name@.len() as int),
            output_words == output_len / 4,
            output_len == 16 || output_len == 32,
            i <= len,
            word_index == i / 4,
            data@.len() == 8,
            word == fold_bytes(padding, name@.subrange(4 * (i as int / 4), i as int), i - 4 * (i as int / 4), unsigned_char),
            forall|w: int| 0 <= w < word_index ==> #[trigger] data@[w] == spec[w],
            forall|w: int| word_index <= w < 8 ==> #[trigger] data@[w] == 0,
            spec == prep_spec(name@, output_len as int, unsigned_char),
        decreases len - i,
    {
        if i % 4 == 0 {
            word = padding;
        }
        let ghost prev = word;
        word = word.wrapping_shl(8).wrapping_add(htree_char_value(name[i], unsigned_char));
        proof {
            let st = 4 * (i as int / 4);
            assert(name@.subrange(st, i + 1).subrange(0, i - st) =~= name@.subrange(st, i as int));
            lemma_fold_extend(padding, name@.subrange(st, i + 1), name@.subrange(st, i as int), i - st, unsigned_char);
        }
        if i % 4 == 3 {
            proof {
                let st = 4 * (i as int / 4);
                assert(name@.subrange(st, i + 1) =~= name@.subrange(4 * (word_index as int), 4 * (word_index as int) + 4));
            }
            data.set(word_index, word);
            word_index += 1;
            word = padding;
        }
        i += 1;
        proof {
            if i % 4 == 0 {
                assert(name@.subrange(4 * (i as int / 4), i as int) =~= Seq::<u8>::empty());
            }
        }
    }
    if word_index < output_words {
        proof {
            assert(name@.subrange(4 * (i as int / 4), i as int) =~= name@.subrange(4 * (word_index as int), len as int));
        }
        data.set(word_index, word);
        word_index += 1;
    }
    while word_index < output_words
        invariant
            word_index <= output_words,
            output_words == output_len / 4,
            output_words <= 8,
            word_index < output_words ==> word_index > len / 4,
            data@.len() == 8,
            forall|w: int| 0 <= w < word_index ==> #[trigger] data@[w] == spec[w],
            forall|w: int| word_index <= w < 8 ==> #[trigger] data@[w] == 0,
            spec == prep_spec(name@, output_len as int, unsigned_char),
            padding == pad_word(name@.len() as int),
            len == (if name@.len() < output_len { name@.len() as int } else { output_len as int }),
        decreases output_words - word_index,
    {
        data.set(word_index, padding);
        word_index += 1;
    }
    assert(data@ =~= spec);
    data
}

/// Shifting one more byte into a word.
proof fn lemma_fold_extend(word: u32, longer: Seq<u8>, shorter: Seq<u8>, n: int, unsigned_char: bool)
    requires
        0 <= n,
        longer.len() == n + 1,
        shorter == longer.subrange(0, n),
    ensures
        fold_bytes(word, longer, n + 1, unsigned_char) == u32_specs::wrapping_add(
            u32_specs::wrapping_shl(fold_bytes(word, shorter, n, unsigned_char), 8), char_value(longer[n], unsigned_char)),
    decreases n,
{
    lemma_fold_prefix(word, longer, shorter, n, unsigned_char);
}

/// Folding the first `n` bytes only looks at those bytes.
proof fn lemma_fold_prefix(word: u32, a: Seq<u8>, b: Seq<u8>, n: int, unsigned_char: bool)
    requires
        0 <= n <= a.len(),
        n <= b.len(),
        forall|k: int| 0 <= k < n ==> a[k] == b[k],
    ensures
        fold_bytes(word, a, n, unsigned_char) == fold_bytes(word, b, n, unsigned_char),
    decreases n,
{
    if n > 0 {
        lemma_fold_prefix(word, a, b, n - 1, unsigned_char);
    }
}

/// The directory hash of a name; `EOPNOTSUPP` for an empty name or one over 255 bytes.
pub fn htree_hash(name: &[u8], seed: &Vec<u32>, version: HTreeHashVersion) -> (r: SysResult<u32>)
    requires
        seed@.len() == 4,
    ensures
        r == hash_spec(name@, seed@, version),
{
    if name.len() == 0 || name.len() > EXT4_MAX_NAME_LEN {
        return Err(Errno::EOPNOTSUPP);
    }
    let unsigned_char = version.unsigned();
    match version {
        HTreeHashVersion::Legacy | HTreeHashVersion::LegacyUnsigned => {
            Ok(htree_normalize_hash(htree_legacy_hash(name, unsigned_char)))
        },
        _ => {
            let md4 = match version {
                HTreeHashVersion::HalfMd4 | HTreeHashVersion::HalfMd4Unsigned => true,
                _ => false,
            };
            let chunk: usize = if md4 { 32 } else { 16 };
            let mut state: Vec<u32> = vec![seed[0], seed[1], seed[2], seed[3]];
            assert(state@ =~= seed@);
            let mut pos: usize = 0;
            assert(name@.subrange(0, name@.len() as int) =~= name@);
            while pos < name.len()
                invariant
                    pos <= name@.len(),
                    name@.len() <= EXT4_MAX_NAME_LEN,
                    state@.len() == 4,
                    chunk == (if md4 { 32usize } else { 16usize }),
                    chunked_state(name@, seed@, md4, unsigned_char)
                        == chunked_state(name@.subrange(pos as int, name@.len() as int), state@, md4, unsigned_char),
                decreases name@.len() - pos,
            {
                let rest = vstd::slice::slice_subrange(name, pos, name.len());
                let data = htree_prep_hashbuf(rest, chunk, unsigned_char);
                if md4 {
                    htree_half_md4(&mut state, &data);
                } else {
                    htree_tea(&mut state, &data);
                }
                let step = if rest.len() < chunk { rest.len() } else { chunk };
                proof {
                    assert(rest@.subrange(step as int, rest@.len() as int) =~= name@.subrange(pos + step, name@.len() as int));
                }
                pos = pos + step;
            }
            proof {
                assert(name@.subrange(pos as int, name@.len() as int) =~= Seq::<u8>::empty());
                assert(name@.subrange(0, name@.len() as int) =~= name@);
            }
            if md4 {
                Ok(htree_normalize_hash(state[1]))
            } else {
                Ok(htree_normalize_hash(state[0]))
            }
        },
    }
}

/// For a name that fits one chunk (32 bytes), the half-MD4 directory hash is the second word of
/// the seed after one half-MD4 transform with the name's padded buffer, its low bit cleared (and
/// the end-of-index value moved down); the TEA hash of a name of at most 16 bytes is likewise
/// the first word after one TEA transform.
pub proof fn law_single_chunk_hash(name: Seq<u8>, seed: Seq<u32>, v: HTreeHashVersion)
    requires
        0 < name.len(),
        seed.len() == 4,
    ensures
        (v == HTreeHashVersion::HalfMd4 || v == HTreeHashVersion::HalfMd4Unsigned) && name.len() <= 32
            ==> hash_spec(name, seed, v) == Ok::<u32, Errno>(
                normalize(half_md4_spec(seed, prep_spec(name, 32, spec_unsigned(v)))[1])),
        (v == HTreeHashVersion::Tea || v == HTreeHashVersion::TeaUnsigned) && name.len() <= 16
            ==> hash_spec(name, seed, v) == Ok::<u32, Errno>(
                normalize(tea_spec(seed, prep_spec(name, 16, spec_unsigned(v)))[0])),
{
    let uc = spec_unsigned(v);
    reveal_with_fuel(chunked_state, 2);
    assert(name.subrange(name.len() as int, name.len() as int) =~= Seq::<u8>::empty());
    if name.len() <= 32 {
        assert(chunked_state(name, seed, true, uc) == half_md4_spec(seed, prep_spec(name, 32, uc)));
    }
    if name.len() <= 16 {
        assert(chunked_state(name, seed, false, uc) == tea_spec(seed, prep_spec(name, 16, uc)));
    }
}

/// A name longer than one chunk hashes as its remainder does from the state that its first
/// chunk leaves: 32 bytes through half-MD4, 16 through TEA.
pub proof fn law_hash_chains_chunks(name: Seq<u8>, seed: Seq<u32>, v: HTreeHashVersion)
    requires
        name.len() <= EXT4_MAX_NAME_LEN,
        seed.len() == 4,
    ensures
        (v == HTreeHashVersion::HalfMd4 || v == HTreeHashVersion::HalfMd4Unsigned) && name.len() > 32
            ==> hash_spec(name, seed, v) == hash_spec(name.subrange(32, name.len() as int),
                half_md4_spec(seed, prep_spec(name, 32, spec_unsigned(v))), v),
        (v == HTreeHashVersion::Tea || v == HTreeHashVersion::TeaUnsigned) && name.len() > 16
            ==> hash_spec(name, seed, v) == hash_spec(name.subrange(16, name.len() as int),
                tea_spec(seed, prep_spec(name, 16, spec_unsigned(v))), v),
{
}

/// The half-MD4 directory hash of "world" with a zero seed is 0x6eb82d68, as ext4 computes it.
pub proof fn law_half_md4_known_value()
    ensures
        hash_spec(seq![0x77u8, 0x6fu8, 0x72u8, 0x6cu8, 0x64u8], seq![0u32, 0u32, 0u32, 0u32], HTreeHashVersion::HalfMd4)
            == Ok::<u32, Errno>(0x6eb8_2d68u32),
{
    let name = seq![0x77u8, 0x6fu8, 0x72u8, 0x6cu8, 0x64u8];
    let seed = seq![0u32, 0u32, 0u32, 0u32];
    law_single_chunk_hash(name, seed, HTreeHashVersion::HalfMd4);
    let x = prep_spec(name, 32, false);
    reveal_with_fuel(fold_bytes, 5);
    assert(pad_word(5) == 0x0505_0505u32);
    assert(name.subrange(0, 4) =~= seq![0x77u8, 0x6fu8, 0x72u8, 0x6cu8]);
    assert(name.subrange(4, 5) =~= seq![0x64u8]);
    assert(u32_specs::wrapping_add(u32_specs::wrapping_shl(u32_specs::wrapping_add(u32_specs::wrapping_shl(
        u32_specs::wrapping_add(u32_specs::wrapping_shl(u32_specs::wrapping_add(u32_specs::wrapping_shl(0x0505_0505u32, 8),
        0x77u32), 8), 0x6fu32), 8), 0x72u32), 8), 0x6cu32) == 0x776f_726cu32) by (bit_vector);
    assert(u32_specs::wrapping_add(u32_specs::wrapping_shl(0x0505_0505u32, 8), 0x64u32) == 0x0505_0564u32) by (bit_vector);
    assert(x[0] == 0x776f_726cu32);
    assert(x[1] == 0x0505_0564u32);
    assert(forall|w: int| 2 <= w < 8 ==> #[trigger] x[w] == 0x0505_0505u32);
    assert(x[2] == 0x0505_0505u32 && x[3] == 0x0505_0505u32 && x[4] == 0x0505_0505u32 && x[5] == 0x0505_0505u32
        && x[6] == 0x0505_0505u32 && x[7] == 0x0505_0505u32);
    assert(ff(0x00000000u32, 0x00000000u32, 0x00000000u32, 0x00000000u32, 0x776f726cu32, 3u32) == 0xbb7b9363u32) by (bit_vector);
    assert(ff(0x00000000u32, 0xbb7b9363u32, 0x00000000u32, 0x00000000u32, 0x05050564u32, 7u32) == 0x8282b202u32) by (bit_vector);
    assert(ff(0x00000000u32, 0x8282b202u32, 0xbb7b9363u32, 0x00000000u32, 0x05050505u32, 11u32) == 0x3cb83c38u32) by (bit_vector);
    assert(ff(0x00000000u32, 0x3cb83c38u32, 0x8282b202u32, 0xbb7b9363u32, 0x05050505u32, 19u32) == 0xc2444645u32) by (bit_vector);
    assert(ff(0xbb7b9363u32, 0xc2444645u32, 0x3cb83c38u32, 0x8282b202u32, 0x05050505u32, 3u32) == 0x081a6356u32) by (bit_vector);
    assert(ff(0x8282b202u32, 0x081a6356u32, 0xc2444645u32, 0x3cb83c38u32, 0x05050505u32, 7u32) == 0x140ab9deu32) by (bit_vector);
    assert(ff(0x3cb83c38u32, 0x140ab9deu32, 0x081a6356u32, 0xc2444645u32, 0x05050505u32, 11u32) == 0x5d44a020u32) by (bit_vector);
    assert(ff(0xc2444645u32, 0x5d44a020u32, 0x140ab9deu32, 0x081a6356u32, 0x05050505u32, 19u32) == 0x7506db21u32) by (bit_vector);
    assert(gg(0x081a6356u32, 0x7506db21u32, 0x5d44a020u32, 0x140ab9deu32, 0x05050564u32, 3u32) == 0xe544db9du32) by (bit_vector);
    assert(gg(0x140ab9deu32, 0xe544db9du32, 0x7506db21u32, 0x5d44a020u32, 0x05050505u32, 5u32) == 0x1ae273bdu32) by (bit_vector);
    assert(gg(0x5d44a020u32, 0x1ae273bdu32, 0xe544db9du32, 0x7506db21u32, 0x05050505u32, 9u32) == 0x25f4f664u32) by (bit_vector);
    assert(gg(0x7506db21u32, 0x25f4f664u32, 0x1ae273bdu32, 0xe544db9du32, 0x05050505u32, 13u32) == 0x69af9f4eu32) by (bit_vector);
    assert(gg(0xe544db9du32, 0x69af9f4eu32, 0x25f4f664u32, 0x1ae273bdu32, 0x776f726cu32, 3u32) == 0x08edf877u32) by (bit_vector);
    assert(gg(0x1ae273bdu32, 0x08edf877u32, 0x69af9f4eu32, 0x25f4f664u32, 0x05050505u32, 5u32) == 0x8afe1834u32) by (bit_vector);
    assert(gg(0x25f4f664u32, 0x8afe1834u32, 0x08edf877u32, 0x69af9f4eu32, 0x05050505u32, 9u32) == 0xd81af11cu32) by (bit_vector);
    assert(gg(0x69af9f4eu32, 0xd81af11cu32, 0x8afe1834u32, 0x08edf877u32, 0x05050505u32, 13u32) == 0xc2c40a46u32) by (bit_vector);
    assert(hh(0x08edf877u32, 0xc2c40a46u32, 0xd81af11cu32, 0x8afe1834u32, 0x05050505u32, 3u32) == 0x676e6458u32) by (bit_vector);
    assert(hh(0x8afe1834u32, 0x676e6458u32, 0xc2c40a46u32, 0xd81af11cu32, 0x05050505u32, 9u32) == 0x1b4fb8f9u32) by (bit_vector);
    assert(hh(0xd81af11cu32, 0x1b4fb8f9u32, 0x676e6458u32, 0xc2c40a46u32, 0x05050505u32, 11u32) == 0xfdc54856u32) by (bit_vector);
    assert(hh(0xc2c40a46u32, 0xfdc54856u32, 0x1b4fb8f9u32, 0x676e6458u32, 0x05050505u32, 15u32) == 0xc7f1dc43u32) by (bit_vector);
    assert(hh(0x676e6458u32, 0xc7f1dc43u32, 0xfdc54856u32, 0x1b4fb8f9u32, 0x05050564u32, 3u32) == 0xe644124fu32) by (bit_vector);
    assert(hh(0x1b4fb8f9u32, 0xe644124fu32, 0xc7f1dc43u32, 0xfdc54856u32, 0x05050505u32, 9u32) == 0x3e5ff2d7u32) by (bit_vector);
    assert(hh(0xfdc54856u32, 0x3e5ff2d7u32, 0xe644124fu32, 0xc7f1dc43u32, 0x776f726cu32, 11u32) == 0xc719f01fu32) by (bit_vector);
    assert(hh(0xc7f1dc43u32, 0xc719f01fu32, 0x3e5ff2d7u32, 0xe644124fu32, 0x05050505u32, 15u32) == 0x6eb82d69u32) by (bit_vector);

    assert(half_md4_spec(seed, x)[1] == 0x6eb8_2d69u32);
    assert(normalize(0x6eb8_2d69u32) == 0x6eb8_2d68u32) by (bit_vector);
}

} // verus!
