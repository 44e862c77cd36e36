//! File names as the directory stores them: UTF-16 code units, turned into UTF-8 bytes.
use vstd::prelude::*;
use crate::errno::{Errno, SysResult};

verus! {

/// `a` put in front of the decoded rest, when the rest decodes.
pub open spec fn prepend(a: Seq<u32>, rest: Option<Seq<u32>>) -> Option<Seq<u32>> {
    match rest {
        Some(s) => Some(a + s),
        None => None,
    }
}

/// The code point of a surrogate pair.
pub open spec fn pair_value(h: u16, l: u16) -> u32 {
    (0x10000 + (h - 0xD800) * 0x400 + (l - 0xDC00)) as u32
}

/// The code points that the UTF-16 units `u` encode, or `None` where a surrogate is unpaired.
pub open spec fn utf16_decode(u: Seq<u16>) -> Option<Seq<u32>>
    decreases u.len(),
{
    if u.len() == 0 {
        Some(Seq::empty())
    } else if u[0] < 0xD800 || u[0] > 0xDFFF {
        prepend(seq![u[0] as u32], utf16_decode(u.subrange(1, u.len() as int)))
    } else if u[0] <= 0xDBFF && u.len() >= 2 && 0xDC00 <= u[1] <= 0xDFFF {
        prepend(seq![pair_value(u[0], u[1])], utf16_decode(u.subrange(2, u.len() as int)))
    } else {
        None
    }
}

/// The UTF-8 bytes of one code point.
pub open spec fn utf8_char(c: u32) -> Seq<u8> {
    if c < 0x80 {
        seq![c as u8]
    } else if c < 0x800 {
        seq![(0xC0 + c / 64) as u8, (0x80 + c % 64) as u8]
    } else if c < 0x10000 {
        seq![(0xE0 + c / 4096) as u8, (0x80 + (c / 64) % 64) as u8, (0x80 + c % 64) as u8]
    } else {
        seq![(0xF0 + c / 262144) as u8, (0x80 + (c / 4096) % 64) as u8, (0x80 + (c / 64) % 64) as u8, (0x80 + c % 64) as u8]
    }
}

/// The UTF-8 bytes of a sequence of code points.
pub open spec fn utf8_encode(s: Seq<u32>) -> Seq<u8>
    decreases s.len(),
{
    if s.len() == 0 {
        Seq::empty()
    } else {
        utf8_encode(s.drop_last()) + utf8_char(s.last())
    }
}

/// The UTF-8 bytes of the name that the units `u` encode; `EIO` for an unpaired surrogate.
pub open spec fn name_spec(u: Seq<u16>) -> Result<Seq<u8>, Errno> {
    match utf16_decode(u) {
        Some(cps) => Ok(utf8_encode(cps)),
        None => Err(Errno::EIO),
    }
}

proof fn lemma_prepend_assoc(a: Seq<u32>, b: Seq<u32>, rest: Option<Seq<u32>>)
    ensures
        prepend(a, prepend(b, rest)) == prepend(a + b, rest),
{
    match rest {
        Some(s) => {
            assert(a + (b + s) =~= (a + b) + s);
        },
        None => {},
    }
}

/// Appends the UTF-8 bytes of the code point `c`, which is below 0x110000.
fn push_utf8(out: &mut Vec<u8>, c: u32)
    requires
        c < 0x110000,
    ensures
        final(out)@ == old(out)@ + utf8_char(c),
{
    if c < 0x80 {
        out.push(c as u8);
    } else if c < 0x800 {
        out.push((0xC0 + c / 64) as u8);
        out.push((0x80 + c % 64) as u8);
    } else if c < 0x10000 {
        out.push((0xE0 + c / 4096) as u8);
        out.push((0x80 + (c / 64) % 64) as u8);
        out.push((0x80 + c % 64) as u8);
    } else {
        out.push((0xF0 + c / 262144) as u8);
        out.push((0x80 + (c / 4096) % 64) as u8);
        out.push((0x80 + (c / 64) % 64) as u8);
        out.push((0x80 + c % 64) as u8);
    }
    assert(out@ =~= old(out)@ + utf8_char(c));
}

/// The UTF-8 bytes of the name stored as the UTF-16 units `units`; `EIO` where a surrogate
/// is unpaired.
pub fn decode_name(units: &[u16]) -> (r: SysResult<Vec<u8>>)
    ensures
        match r {
            Ok(v) => name_spec(units@) == Ok::<Seq<u8>, Errno>(v@),
            Err(e) => name_spec(units@) == Err::<Seq<u8>, Errno>(e),
        },
{
    let mut out: Vec<u8> = Vec::new();
    let ghost mut cps: Seq<u32> = Seq::empty();
    let mut i: usize = 0;
    proof {
        assert(units@.subrange(0, units@.len() as int) =~= units@);
        match utf16_decode(units@) {
            Some(s) => {
                assert(Seq::<u32>::empty() + s =~= s);
            },
            None => {},
        }
    }
    while i < units.len()
        invariant
            i <= units@.len(),
            utf16_decode(units@) == prepend(cps, utf16_decode(units@.subrange(i as int, units@.len() as int))),
            out@ == utf8_encode(cps),
        decreases units@.len() - i,
    {
        let ghost rest = units@.subrange(i as int, units@.len() as int);
        let h = units[i];
        if h < 0xD800 || h > 0xDFFF {
            proof {
                assert(rest.subrange(1, rest.len() as int) =~= units@.subrange(i + 1, units@.len() as int));
                lemma_prepend_assoc(cps, seq![h as u32], utf16_decode(rest.subrange(1, rest.len() as int)));
                assert((cps + seq![h as u32]).drop_last() =~= cps);
            }
            push_utf8(&mut out, h as u32);
            proof {
                cps = cps + seq![h as u32];
            }
            i += 1;
        } else if h <= 0xDBFF && i + 1 < units.len() && 0xDC00 <= units[i + 1] && units[i + 1] <= 0xDFFF {
            let l = units[i + 1];
            let c: u32 = 0x10000 + (h as u32 - 0xD800) * 0x400 + (l as u32 - 0xDC00);
            proof {
                assert(rest[1] == l);
                assert(rest.subrange(2, rest.len() as int) =~= units@.subrange(i + 2, units@.len() as int));
                lemma_prepend_assoc(cps, seq![c], utf16_decode(rest.subrange(2, rest.len() as int)));
                assert((cps + seq![c]).drop_last() =~= cps);
            }
            push_utf8(&mut out, c);
            proof {
                cps = cps + seq![c];
            }
            i += 2;
        } else {
            return Err(Errno::EIO);
        }
    }
    proof {
        assert(units@.subrange(units@.len() as int, units@.len() as int) =~= Seq::<u16>::empty());
        assert(cps + Seq::<u32>::empty() =~= cps);
    }
    Ok(out)
}

} // verus!
