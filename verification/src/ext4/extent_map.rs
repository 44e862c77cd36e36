//! The logical-to-physical block map that a list of leaf extents describes, and the
//! operations on it: lookup, insertion of one block, removal of a range, merging.
use vstd::prelude::*;
use crate::errno::{Errno, SysResult};
use super::defs::{ExtentLeaf, EXT_INIT_MAX_LEN};

verus! {

/// The number of blocks an extent's raw length field describes.
pub open spec fn ext_len(raw: u16) -> int {
    if raw <= EXT_INIT_MAX_LEN { raw as int } else { raw - EXT_INIT_MAX_LEN }
}

/// One past the last logical block of a leaf, by its raw length.
pub open spec fn leaf_end(e: ExtentLeaf) -> int {
    e.ee_block + e.ee_len_raw
}

/// A leaf covers an initialised, non-empty run.
pub open spec fn wf_leaf(e: ExtentLeaf) -> bool {
    0 < e.ee_len_raw <= EXT_INIT_MAX_LEN
}

/// Leaves are in logical order and do not overlap.
pub open spec fn sorted_leaves(s: Seq<ExtentLeaf>) -> bool {
    forall|i: int, j: int| #![trigger s[i], s[j]] 0 <= i < j < s.len() ==> leaf_end(s[i]) <= s[j].ee_block
}

/// A list of leaves that the checks on it accept.
pub open spec fn valid_extents(s: Seq<ExtentLeaf>) -> bool {
    &&& forall|i: int| 0 <= i < s.len() ==> wf_leaf(#[trigger] s[i]) && leaf_end(s[i]) <= u32::MAX
    &&& sorted_leaves(s)
}

/// Physical block numbers stay clear of overflow across each leaf.
pub open spec fn starts_bounded(s: Seq<ExtentLeaf>) -> bool {
    forall|i: int| 0 <= i < s.len() ==> #[trigger] s[i].ee_start + ext_len(s[i].ee_len_raw) <= u64::MAX
}

/// Every leaf's physical run ends within 64 bits.
pub open spec fn pends_bounded(s: Seq<ExtentLeaf>) -> bool {
    forall|i: int| 0 <= i < s.len() ==> #[trigger] s[i].ee_start + s[i].ee_len_raw <= u64::MAX
}

/// Leaf `e` maps logical block `l` to physical block `p`.
pub open spec fn leaf_maps(e: ExtentLeaf, l: int, p: int) -> bool {
    e.ee_block <= l < leaf_end(e) && p == e.ee_start + (l - e.ee_block)
}

/// The leaves map logical block `l` to physical block `p`.
pub open spec fn maps_to(s: Seq<ExtentLeaf>, l: int, p: int) -> bool {
    exists|i: int| 0 <= i < s.len() && #[trigger] leaf_maps(s[i], l, p)
}

/// Some leaf covers logical block `l`.
pub open spec fn mapped(s: Seq<ExtentLeaf>, l: int) -> bool {
    exists|i: int| 0 <= i < s.len() && #[trigger] s[i].ee_block <= l && l < leaf_end(s[i])
}

/// What the checks on a list of leaves report, scanning from the front with the end of the
/// previous leaf.
pub open spec fn validate_from(s: Seq<ExtentLeaf>, prev_end: Option<int>) -> Result<(), Errno>
    decreases s.len(),
{
    if s.len() == 0 {
        Ok(())
    } else {
        let e = s[0];
        if e.ee_len_raw == 0 {
            Err(Errno::EIO)
        } else if e.ee_len_raw > EXT_INIT_MAX_LEN {
            Err(Errno::EOPNOTSUPP)
        } else if prev_end matches Some(p) && e.ee_block < p {
            Err(Errno::EIO)
        } else if leaf_end(e) > u32::MAX {
            Err(Errno::EINVAL)
        } else {
            validate_from(s.drop_first(), Some(leaf_end(e)))
        }
    }
}

/// What a lookup among leaves gives: the physical block of `l`, or none. The scan stops at the
/// first leaf past `l`; with `check_uninit`, a block of an uninitialised extent gives none.
pub open spec fn find_spec(s: Seq<ExtentLeaf>, l: u32, check_uninit: bool) -> Option<u64>
    decreases s.len(),
{
    if s.len() == 0 {
        None
    } else {
        let e = s[0];
        let end = e.ee_block + ext_len(e.ee_len_raw);
        if l < e.ee_block {
            None
        } else if end > u32::MAX {
            None
        } else if l < end {
            if check_uninit && e.ee_len_raw > EXT_INIT_MAX_LEN {
                None
            } else {
                Some((e.ee_start + (l - e.ee_block)) as u64)
            }
        } else {
            find_spec(s.drop_first(), l, check_uninit)
        }
    }
}

/// Leaves in order, each ending (within 32 bits) no later than the next begins.
pub open spec fn leaves_ordered(s: Seq<ExtentLeaf>) -> bool {
    &&& forall|i: int| 0 <= i < s.len() ==> #[trigger] s[i].ee_block + ext_len(s[i].ee_len_raw) <= u32::MAX
    &&& forall|a: int, b: int| 0 <= a < b < s.len() ==> #[trigger] s[a].ee_block + ext_len(s[a].ee_len_raw)
        <= #[trigger] s[b].ee_block
}

/// Among ordered leaves, a logical block that leaf `k` covers maps to the same offset into
/// that leaf's physical run (or to nothing when it is uninitialised and those are left out);
/// a block that no leaf covers maps to nothing.
pub proof fn law_leaf_maps_block(s: Seq<ExtentLeaf>, l: u32, check_uninit: bool, k: int)
    requires
        leaves_ordered(s),
    ensures
        0 <= k < s.len() && s[k].ee_block <= l < s[k].ee_block + ext_len(s[k].ee_len_raw) ==> find_spec(s, l, check_uninit)
            == if check_uninit && s[k].ee_len_raw > EXT_INIT_MAX_LEN { None::<u64> }
                else { Some((s[k].ee_start + (l - s[k].ee_block)) as u64) },
        (forall|i: int| 0 <= i < s.len() ==> !(#[trigger] s[i].ee_block <= l < s[i].ee_block + ext_len(s[i].ee_len_raw)))
            ==> find_spec(s, l, check_uninit) is None,
    decreases s.len(),
{
    if s.len() > 0 {
        let rest = s.drop_first();
        assert forall|a: int, b: int| 0 <= a < b < rest.len() implies #[trigger] rest[a].ee_block
            + ext_len(rest[a].ee_len_raw) <= #[trigger] rest[b].ee_block by {
            assert(rest[a] == s[a + 1] && rest[b] == s[b + 1]);
        }
        assert forall|i: int| 0 <= i < rest.len() implies #[trigger] rest[i].ee_block + ext_len(rest[i].ee_len_raw)
            <= u32::MAX by {
            assert(rest[i] == s[i + 1]);
        }
        assert(s[0].ee_block + ext_len(s[0].ee_len_raw) <= u32::MAX);
        if 0 < k < s.len() {
            assert(s[0].ee_block + ext_len(s[0].ee_len_raw) <= s[k].ee_block);
            assert(rest[k - 1] == s[k]);
        }
        law_leaf_maps_block(rest, l, check_uninit, k - 1);
        if forall|i: int| 0 <= i < s.len() ==> !(#[trigger] s[i].ee_block <= l < s[i].ee_block + ext_len(s[i].ee_len_raw)) {
            assert forall|i: int| 0 <= i < rest.len() implies !(#[trigger] rest[i].ee_block <= l < rest[i].ee_block
                + ext_len(rest[i].ee_len_raw)) by {
                assert(rest[i] == s[i + 1]);
            }
        }
    }
}

/// The sum of the block counts of the leaves.
pub open spec fn sum_len(s: Seq<ExtentLeaf>) -> int
    decreases s.len(),
{
    if s.len() == 0 { 0 } else { sum_len(s.drop_last()) + ext_len(s.last().ee_len_raw) }
}

/// Where a leaf and the range `first..last_excl` overlap.
pub open spec fn overlap(e: ExtentLeaf, first: int, last_excl: int) -> (int, int) {
    (if e.ee_block > first { e.ee_block as int } else { first },
     if leaf_end(e) < last_excl { leaf_end(e) } else { last_excl })
}

/// The parts of a leaf outside the range `first..last_excl`.
pub open spec fn kept_pieces(e: ExtentLeaf, first: int, last_excl: int) -> Seq<ExtentLeaf> {
    let (os, oe) = overlap(e, first, last_excl);
    if leaf_end(e) <= first || e.ee_block >= last_excl {
        seq![e]
    } else {
        let left = if e.ee_block < os {
            seq![ExtentLeaf { ee_block: e.ee_block, ee_len_raw: (os - e.ee_block) as u16, ee_start: e.ee_start }]
        } else {
            Seq::empty()
        };
        let right = if oe < leaf_end(e) {
            seq![ExtentLeaf { ee_block: oe as u32, ee_len_raw: (leaf_end(e) - oe) as u16, ee_start: (e.ee_start + (oe - e.ee_block)) as u64 }]
        } else {
            Seq::empty()
        };
        left + right
    }
}

/// The physical blocks of a leaf inside the range `first..last_excl`, in logical order.
pub open spec fn freed_blocks(e: ExtentLeaf, first: int, last_excl: int) -> Seq<u64> {
    let (os, oe) = overlap(e, first, last_excl);
    if leaf_end(e) <= first || e.ee_block >= last_excl || oe <= os {
        Seq::empty()
    } else {
        Seq::new((oe - os) as nat, |k: int| (e.ee_start + (os - e.ee_block) + k) as u64)
    }
}

/// The leaves that removing `first..last_excl` keeps.
pub open spec fn kept_spec(s: Seq<ExtentLeaf>, first: int, last_excl: int) -> Seq<ExtentLeaf>
    decreases s.len(),
{
    if s.len() == 0 { Seq::empty() } else { kept_spec(s.drop_last(), first, last_excl) + kept_pieces(s.last(), first, last_excl) }
}

/// A block is mapped by two lists put together when one of them maps it.
proof fn lemma_mapped_concat(a: Seq<ExtentLeaf>, b: Seq<ExtentLeaf>, l: int)
    ensures
        mapped(a + b, l) <==> (mapped(a, l) || mapped(b, l)),
{
    let ab = a + b;
    if mapped(ab, l) {
        let i = choose|i: int| 0 <= i < ab.len() && #[trigger] ab[i].ee_block <= l && l < leaf_end(ab[i]);
        if i < a.len() {
            assert(a[i] == ab[i]);
        } else {
            assert(b[i - a.len()] == ab[i]);
        }
    }
    if mapped(a, l) {
        let i = choose|i: int| 0 <= i < a.len() && #[trigger] a[i].ee_block <= l && l < leaf_end(a[i]);
        assert(ab[i] == a[i]);
    }
    if mapped(b, l) {
        let i = choose|i: int| 0 <= i < b.len() && #[trigger] b[i].ee_block <= l && l < leaf_end(b[i]);
        assert(ab[i + a.len()] == b[i]);
    }
}

/// What is left of one leaf maps exactly its blocks outside the removed range.
proof fn lemma_kept_pieces_mapped(e: ExtentLeaf, first: int, last_excl: int, l: int)
    requires
        wf_leaf(e),
        leaf_end(e) <= u32::MAX,
        0 <= first <= last_excl,
    ensures
        mapped(kept_pieces(e, first, last_excl), l) <==> (e.ee_block <= l < leaf_end(e) && !(first <= l < last_excl)),
{
    let k = kept_pieces(e, first, last_excl);
    let (os, oe) = overlap(e, first, last_excl);
    if leaf_end(e) <= first || e.ee_block >= last_excl {
        if e.ee_block <= l < leaf_end(e) {
            assert(k[0] == e);
        }
    } else {
        let left = if e.ee_block < os {
            seq![ExtentLeaf { ee_block: e.ee_block, ee_len_raw: (os - e.ee_block) as u16, ee_start: e.ee_start }]
        } else {
            Seq::empty()
        };
        let right = if oe < leaf_end(e) {
            seq![ExtentLeaf { ee_block: oe as u32, ee_len_raw: (leaf_end(e) - oe) as u16, ee_start: (e.ee_start + (oe - e.ee_block)) as u64 }]
        } else {
            Seq::empty()
        };
        assert(k == left + right);
        lemma_mapped_concat(left, right, l);
        if e.ee_block < os && e.ee_block <= l < os {
            assert(left[0].ee_block <= l && l < leaf_end(left[0]));
        }
        if oe < leaf_end(e) && oe <= l < leaf_end(e) {
            assert(right[0].ee_block <= l && l < leaf_end(right[0]));
        }
    }
}

/// Removing logical blocks `first..last_excl` from a list of leaves leaves none of them
/// mapped, and every other logical block mapped exactly when it was.
pub proof fn law_kept_unmaps_range(s: Seq<ExtentLeaf>, first: int, last_excl: int, l: int)
    requires
        valid_extents(s),
        0 <= first <= last_excl,
    ensures
        first <= l < last_excl ==> !mapped(kept_spec(s, first, last_excl), l),
        !(first <= l < last_excl) ==> (mapped(kept_spec(s, first, last_excl), l) <==> mapped(s, l)),
    decreases s.len(),
{
    if s.len() > 0 {
        let init = s.drop_last();
        assert(valid_extents(init)) by {
            assert forall|i: int| 0 <= i < init.len() implies wf_leaf(#[trigger] init[i]) && leaf_end(init[i]) <= u32::MAX by {
                assert(init[i] == s[i]);
            }
            assert forall|i: int, j: int| #![trigger init[i], init[j]] 0 <= i < j < init.len() implies
                leaf_end(init[i]) <= init[j].ee_block by {
                assert(init[i] == s[i] && init[j] == s[j]);
            }
        }
        law_kept_unmaps_range(init, first, last_excl, l);
        let e = s.last();
        assert(wf_leaf(s[s.len() - 1]));
        lemma_kept_pieces_mapped(e, first, last_excl, l);
        lemma_mapped_concat(kept_spec(init, first, last_excl), kept_pieces(e, first, last_excl), l);
        assert(s == init.push(e));
        lemma_mapped_concat(init, seq![e], l);
        assert(init + seq![e] == s);
        if e.ee_block <= l < leaf_end(e) {
            assert(seq![e][0] == e);
        }
        if mapped(seq![e], l) {
            let i = choose|i: int| 0 <= i < seq![e].len() && #[trigger] seq![e][i].ee_block <= l && l < leaf_end(seq![e][i]);
            assert(i == 0);
        }
    }
}

/// The physical blocks that removing `first..last_excl` frees, in order.
pub open spec fn freed_spec(s: Seq<ExtentLeaf>, first: int, last_excl: int) -> Seq<u64>
    decreases s.len(),
{
    if s.len() == 0 { Seq::empty() } else { freed_spec(s.drop_last(), first, last_excl) + freed_blocks(s.last(), first, last_excl) }
}

/// Valid leaves pass the checks; leaves that pass are valid.
pub proof fn lemma_validate_valid(s: Seq<ExtentLeaf>, prev_end: Option<int>)
    ensures
        validate_from(s, prev_end) is Ok ==> valid_extents(s) && (prev_end is Some && s.len() > 0 ==> prev_end->0 <= s[0].ee_block),
    decreases s.len(),
{
    if s.len() > 0 {
        let e = s[0];
        let t = s.drop_first();
        lemma_validate_valid(t, Some(leaf_end(e)));
        if validate_from(s, prev_end) is Ok {
            assert(validate_from(t, Some(leaf_end(e))) is Ok);
            assert forall|i: int| 0 <= i < s.len() implies wf_leaf(#[trigger] s[i]) && leaf_end(s[i]) <= u32::MAX by {
                if i > 0 {
                    assert(s[i] == t[i - 1]);
                }
            }
            assert forall|i: int, j: int| #![trigger s[i], s[j]] 0 <= i < j < s.len() implies leaf_end(s[i]) <= s[j].ee_block by {
                if i == 0 {
                    if t.len() > 0 {
                        assert(leaf_end(e) <= t[0].ee_block);
                        if j > 1 {
                            assert(leaf_end(t[0]) <= t[j - 1].ee_block);
                            assert(t[0].ee_block < leaf_end(t[0]));
                        }
                    }
                } else {
                    assert(s[i] == t[i - 1] && s[j] == t[j - 1]);
                }
            }
        }
    }
}

/// The number of blocks an extent's raw length field describes.
pub fn extent_len(raw: u16) -> (r: u16)
    ensures
        r == ext_len(raw),
{
    if raw <= EXT_INIT_MAX_LEN { raw } else { raw - EXT_INIT_MAX_LEN }
}

/// The number of blocks an extent's raw length field describes, widened.
pub fn extent_len_u32(raw: u16) -> (r: u32)
    ensures
        r == ext_len(raw),
{
    if raw <= EXT_INIT_MAX_LEN { raw as u32 } else { (raw - EXT_INIT_MAX_LEN) as u32 }
}

proof fn lemma_sum_mono(s: Seq<ExtentLeaf>, i: int)
    requires
        0 <= i <= s.len(),
    ensures
        sum_len(s.take(i)) <= sum_len(s),
    decreases s.len() - i,
{
    if i < s.len() {
        lemma_sum_mono(s, i + 1);
        assert(s.take(i + 1).drop_last() =~= s.take(i));
    } else {
        assert(s.take(i) =~= s);
    }
}

/// Block counts are not negative.
pub proof fn lemma_sum_len_nonneg(s: Seq<ExtentLeaf>)
    ensures
        sum_len(s) >= 0,
    decreases s.len(),
{
    if s.len() > 0 {
        lemma_sum_len_nonneg(s.drop_last());
    }
}

/// The total number of data blocks the leaves cover; `EINVAL` when it exceeds 64 bits.
pub fn extent_data_blocks(extents: &[ExtentLeaf]) -> (r: SysResult<u64>)
    ensures
        sum_len(extents@) >= 0,
        r == (if sum_len(extents@) > u64::MAX { Err::<u64, Errno>(Errno::EINVAL) } else { Ok::<u64, Errno>(sum_len(extents@) as u64) }),
{
    proof { lemma_sum_len_nonneg(extents@); }
    let mut total: u64 = 0;
    let mut i: usize = 0;
    while i < extents.len()
        invariant
            i <= extents@.len(),
            sum_len(extents@) >= 0,
            total == sum_len(extents@.take(i as int)),
        decreases extents@.len() - i,
    {
        let add = extent_len_u32(extents[i].ee_len_raw) as u64;
        proof {
            assert(extents@.take(i + 1).drop_last() =~= extents@.take(i as int));
        }
        total = match total.checked_add(add) {
            Some(t) => t,
            None => {
                proof { lemma_sum_mono(extents@, i + 1); }
                return Err(Errno::EINVAL);
            },
        };
        i += 1;
    }
    assert(extents@.take(i as int) =~= extents@);
    Ok(total)
}

/// The physical block of logical block `lblk`, stopping at the first leaf past it; blocks of
/// uninitialised extents give none.
pub fn find_in_leaves(leaves: &[ExtentLeaf], lblk: u32) -> (r: Option<u64>)
    requires
        starts_bounded(leaves@),
    ensures
        r == find_spec(leaves@, lblk, true),
{
    let mut i: usize = 0;
    assert(leaves@.skip(0) =~= leaves@);
    while i < leaves.len()
        invariant
            i <= leaves@.len(),
            starts_bounded(leaves@),
            find_spec(leaves@, lblk, true) == find_spec(leaves@.skip(i as int), lblk, true),
        decreases leaves@.len() - i,
    {
        let leaf = leaves[i];
        proof {
            assert(leaves@.skip(i as int)[0] == leaf);
            assert(leaves@.skip(i as int).drop_first() =~= leaves@.skip(i + 1));
        }
        let len = extent_len(leaf.ee_len_raw);
        if lblk < leaf.ee_block {
            return None;
        }
        let end = match leaf.ee_block.checked_add(len as u32) {
            Some(e) => e,
            None => return None,
        };
        if lblk < end {
            if leaf.ee_len_raw > EXT_INIT_MAX_LEN {
                return None;
            }
            return Some(leaf.ee_start + (lblk - leaf.ee_block) as u64);
        }
        i += 1;
    }
    None
}

/// The physical block of logical block `lblk`, stopping at the first leaf past it.
pub fn find_in_leaves_mut(leaves: &[ExtentLeaf], lblk: u32) -> (r: Option<u64>)
    requires
        starts_bounded(leaves@),
    ensures
        r == find_spec(leaves@, lblk, false),
{
    let mut i: usize = 0;
    assert(leaves@.skip(0) =~= leaves@);
    while i < leaves.len()
        invariant
            i <= leaves@.len(),
            starts_bounded(leaves@),
            find_spec(leaves@, lblk, false) == find_spec(leaves@.skip(i as int), lblk, false),
        decreases leaves@.len() - i,
    {
        let leaf = leaves[i];
        proof {
            assert(leaves@.skip(i as int)[0] == leaf);
            assert(leaves@.skip(i as int).drop_first() =~= leaves@.skip(i + 1));
        }
        let len = extent_len_u32(leaf.ee_len_raw);
        if lblk < leaf.ee_block {
            return None;
        }
        let end = match leaf.ee_block.checked_add(len) {
            Some(e) => e,
            None => return None,
        };
        if lblk < end {
            return Some(leaf.ee_start + (lblk - leaf.ee_block) as u64);
        }
        i += 1;
    }
    None
}

/// Checks a list of leaves: non-empty, initialised, in order without overlap, ends in range.
pub fn validate_extent_leaves(extents: &[ExtentLeaf]) -> (r: SysResult<()>)
    ensures
        r == validate_from(extents@, None),
        r is Ok ==> valid_extents(extents@),
{
    proof { lemma_validate_valid(extents@, None); }
    let mut prev_end: Option<u32> = None;
    let mut i: usize = 0;
    assert(extents@.skip(0) =~= extents@);
    while i < extents.len()
        invariant
            i <= extents@.len(),
            validate_from(extents@, None) == validate_from(extents@.skip(i as int),
                match prev_end { Some(p) => Some(p as int), None => None }),
        decreases extents@.len() - i,
    {
        let leaf = extents[i];
        proof {
            assert(extents@.skip(i as int)[0] == leaf);
            assert(extents@.skip(i as int).drop_first() =~= extents@.skip(i + 1));
        }
        if leaf.ee_len_raw == 0 {
            return Err(Errno::EIO);
        }
        if leaf.ee_len_raw > EXT_INIT_MAX_LEN {
            return Err(Errno::EOPNOTSUPP);
        }
        if let Some(end) = prev_end {
            if leaf.ee_block < end {
                return Err(Errno::EIO);
            }
        }
        prev_end = match leaf.ee_block.checked_add(leaf.ee_len_raw as u32) {
            Some(e) => Some(e),
            None => return Err(Errno::EINVAL),
        };
        i += 1;
    }
    proof { assert(extents@.skip(i as int) =~= Seq::<ExtentLeaf>::empty()); }
    Ok(())
}

/// Merging two touching leaves that are physically contiguous keeps the map, the order and
/// the leaves' well-formedness.
proof fn lemma_merge_pair(s: Seq<ExtentLeaf>, i: int, m: ExtentLeaf, t: Seq<ExtentLeaf>)
    requires
        t == s.update(i, m).remove(i + 1),
        0 <= i < i + 1 < s.len(),
        forall|k: int| 0 <= k < s.len() ==> wf_leaf(#[trigger] s[k]),
        sorted_leaves(s),
        leaf_end(s[i]) == s[i + 1].ee_block,
        s[i].ee_start + s[i].ee_len_raw == s[i + 1].ee_start,
        s[i].ee_len_raw + s[i + 1].ee_len_raw <= EXT_INIT_MAX_LEN,
        m == (ExtentLeaf { ee_len_raw: (s[i].ee_len_raw + s[i + 1].ee_len_raw) as u16, ..s[i] }),
    ensures
        t.len() == s.len() - 1,
        forall|k: int| 0 <= k < t.len() ==> wf_leaf(#[trigger] t[k]),
        sorted_leaves(t),
        valid_extents(s) ==> valid_extents(t),
        pends_bounded(s) ==> pends_bounded(t),
        forall|l: int, p: int| maps_to(t, l, p) <==> maps_to(s, l, p),
        forall|l: int| mapped(t, l) <==> mapped(s, l),
{
    assert(t.len() == s.len() - 1);
    assert forall|k: int| 0 <= k < t.len() implies #[trigger] t[k] == (if k < i { s[k] } else if k == i { m } else { s[k + 1] }) by {}
    assert forall|a: int, b: int| #![trigger t[a], t[b]] 0 <= a < b < t.len() implies leaf_end(t[a]) <= t[b].ee_block by {
        if a == i {
            assert(leaf_end(m) == leaf_end(s[i + 1]));
            assert(leaf_end(s[i + 1]) <= s[b + 1].ee_block);
        } else if a < i && b == i {
            assert(leaf_end(s[a]) <= s[i].ee_block);
        } else if a < i {
            if b < i {
                assert(leaf_end(s[a]) <= s[b].ee_block);
            } else {
                assert(leaf_end(s[a]) <= s[b + 1].ee_block);
            }
        } else {
            assert(leaf_end(s[a + 1]) <= s[b + 1].ee_block);
        }
    }
    assert forall|l: int, p: int| maps_to(t, l, p) <==> maps_to(s, l, p) by {
        if maps_to(t, l, p) {
            let k = choose|k: int| 0 <= k < t.len() && #[trigger] leaf_maps(t[k], l, p);
            if k < i {
                assert(leaf_maps(s[k], l, p));
            } else if k == i {
                if l < leaf_end(s[i]) {
                    assert(leaf_maps(s[i], l, p));
                } else {
                    assert(leaf_maps(s[i + 1], l, p));
                }
            } else {
                assert(leaf_maps(s[k + 1], l, p));
            }
        }
        if maps_to(s, l, p) {
            let k = choose|k: int| 0 <= k < s.len() && #[trigger] leaf_maps(s[k], l, p);
            if k < i {
                assert(leaf_maps(t[k], l, p));
            } else if k == i || k == i + 1 {
                assert(leaf_maps(t[i], l, p));
            } else {
                assert(leaf_maps(t[k - 1], l, p));
            }
        }
    }
    assert forall|l: int| mapped(t, l) <==> mapped(s, l) by {
        if mapped(t, l) {
            let k = choose|k: int| 0 <= k < t.len() && #[trigger] t[k].ee_block <= l && l < leaf_end(t[k]);
            if k < i {
                assert(s[k].ee_block <= l && l < leaf_end(s[k]));
            } else if k == i {
                if l < leaf_end(s[i]) {
                    assert(s[i].ee_block <= l && l < leaf_end(s[i]));
                } else {
                    assert(s[i + 1].ee_block <= l && l < leaf_end(s[i + 1]));
                }
            } else {
                assert(s[k + 1].ee_block <= l && l < leaf_end(s[k + 1]));
            }
        }
        if mapped(s, l) {
            let k = choose|k: int| 0 <= k < s.len() && #[trigger] s[k].ee_block <= l && l < leaf_end(s[k]);
            if k < i {
                assert(t[k].ee_block <= l && l < leaf_end(t[k]));
            } else if k == i || k == i + 1 {
                assert(t[i].ee_block <= l && l < leaf_end(t[i]));
            } else {
                assert(t[k - 1].ee_block <= l && l < leaf_end(t[k - 1]));
            }
        }
    }
}

/// Leaf `b` continues leaf `a` logically and physically, and the two together still fit in an
/// initialised extent.
pub open spec fn mergeable(a: ExtentLeaf, b: ExtentLeaf) -> bool {
    &&& a.ee_block + a.ee_len_raw == b.ee_block
    &&& a.ee_start + a.ee_len_raw == b.ee_start
    &&& a.ee_len_raw + b.ee_len_raw <= EXT_INIT_MAX_LEN
}

/// No two neighbouring leaves could be merged.
pub open spec fn leaves_merged(s: Seq<ExtentLeaf>) -> bool {
    forall|k: int| 0 <= k < s.len() - 1 ==> !#[trigger] mergeable(s[k], s[k + 1])
}

/// Merges neighbouring leaves that continue each other logically and physically, as long as
/// the merged length stays within an initialised extent.
fn merge_extent_leaves(extents: &mut Vec<ExtentLeaf>) -> (r: SysResult<()>)
    requires
        forall|k: int| 0 <= k < old(extents)@.len() ==> wf_leaf(#[trigger] old(extents)@[k]),
        sorted_leaves(old(extents)@),
    ensures
        forall|k: int| 0 <= k < final(extents)@.len() ==> wf_leaf(#[trigger] final(extents)@[k]),
        sorted_leaves(final(extents)@),
        valid_extents(old(extents)@) ==> valid_extents(final(extents)@),
        forall|l: int, p: int| maps_to(final(extents)@, l, p) <==> maps_to(old(extents)@, l, p),
        forall|l: int| mapped(final(extents)@, l) <==> mapped(old(extents)@, l),
        final(extents)@.len() <= old(extents)@.len(),
        r is Err ==> r == Err::<(), Errno>(Errno::EINVAL),
        pends_bounded(old(extents)@) ==> r is Ok,
        pends_bounded(old(extents)@) ==> pends_bounded(final(extents)@),
        r is Ok ==> leaves_merged(final(extents)@),
{
    let mut i: usize = 0;
    while extents.len() > 0 && i < extents.len() - 1
        invariant
            forall|k: int| 0 <= k < extents@.len() ==> wf_leaf(#[trigger] extents@[k]),
            sorted_leaves(extents@),
            valid_extents(old(extents)@) ==> valid_extents(extents@),
            pends_bounded(old(extents)@) ==> pends_bounded(extents@),
            forall|l: int, p: int| maps_to(extents@, l, p) <==> maps_to(old(extents)@, l, p),
            forall|l: int| mapped(extents@, l) <==> mapped(old(extents)@, l),
            extents@.len() <= old(extents)@.len(),
            extents@.len() > 0 ==> i < extents@.len(),
            forall|k: int| 0 <= k < i ==> !#[trigger] mergeable(extents@[k], extents@[k + 1]),
        decreases extents@.len() - i,
    {
        let left = extents[i];
        let right = extents[i + 1];
        assert(wf_leaf(extents@[i as int]) && wf_leaf(extents@[i + 1]));
        let left_len = left.ee_len_raw as u32;
        let left_end = match left.ee_block.checked_add(left_len) {
            Some(e) => e,
            None => return Err(Errno::EINVAL),
        };
        if left_end > right.ee_block {
            return Err(Errno::EIO);
        }
        let left_pend = match left.ee_start.checked_add(left_len as u64) {
            Some(e) => e,
            None => return Err(Errno::EINVAL),
        };
        let merged_len = left_len + right.ee_len_raw as u32;
        if left_end == right.ee_block && left_pend == right.ee_start && merged_len <= EXT_INIT_MAX_LEN as u32 {
            let ghost s = extents@;
            let m = ExtentLeaf { ee_block: left.ee_block, ee_len_raw: merged_len as u16, ee_start: left.ee_start };
            extents.set(i, m);
            extents.remove(i + 1);
            assert(extents@ =~= s.update(i as int, m).remove(i + 1));
            proof {
                lemma_merge_pair(s, i as int, m, extents@);
                assert forall|k: int| 0 <= k < i implies !#[trigger] mergeable(extents@[k], extents@[k + 1]) by {
                    assert(!mergeable(s[k], s[k + 1]));
                    if k + 1 == i {
                        assert(extents@[k + 1] == m);
                    } else {
                        assert(extents@[k + 1] == s[k + 1]);
                    }
                }
            }
            continue;
        }
        assert(!mergeable(extents@[i as int], extents@[i + 1]));
        i += 1;
    }
    proof {
        assert forall|k: int| 0 <= k < extents@.len() - 1 implies !#[trigger] mergeable(extents@[k], extents@[k + 1]) by {}
    }
    Ok(())
}

/// Putting a one-block leaf for an unmapped logical block at its place in order keeps the
/// leaves ordered and adds exactly that block to the map.
proof fn lemma_insert_leaf(s: Seq<ExtentLeaf>, pos: int, x: ExtentLeaf, t: Seq<ExtentLeaf>)
    requires
        valid_extents(s),
        0 <= pos <= s.len(),
        t == s.insert(pos, x),
        x.ee_len_raw == 1,
        forall|k: int| 0 <= k < pos ==> #[trigger] s[k].ee_block <= x.ee_block,
        forall|k: int| pos <= k < s.len() ==> #[trigger] s[k].ee_block > x.ee_block,
        pos > 0 ==> leaf_end(s[pos - 1]) <= x.ee_block,
    ensures
        forall|k: int| 0 <= k < t.len() ==> wf_leaf(#[trigger] t[k]),
        sorted_leaves(t),
        x.ee_block < u32::MAX ==> valid_extents(t),
        pends_bounded(s) && x.ee_start < u64::MAX ==> pends_bounded(t),
        forall|l: int, p: int| maps_to(t, l, p) <==> (maps_to(s, l, p) || (l == x.ee_block && p == x.ee_start)),
        !mapped(s, x.ee_block as int),
{
    assert forall|k: int| 0 <= k < t.len() implies #[trigger] t[k] == (if k < pos { s[k] } else if k == pos { x } else { s[k - 1] }) by {}
    assert forall|k: int| 0 <= k < pos implies #[trigger] leaf_end(s[k]) <= x.ee_block by {
        if k < pos - 1 {
            assert(leaf_end(s[k]) <= s[pos - 1].ee_block);
            assert(s[pos - 1].ee_block < leaf_end(s[pos - 1]));
        }
    }
    assert forall|a: int, b: int| #![trigger t[a], t[b]] 0 <= a < b < t.len() implies leaf_end(t[a]) <= t[b].ee_block by {
        if a < pos && b == pos {
        } else if a == pos {
            assert(s[b - 1].ee_block > x.ee_block);
        } else if a < pos && b > pos {
            assert(leaf_end(s[a]) <= x.ee_block);
            assert(s[b - 1].ee_block > x.ee_block);
        } else if b < pos {
            assert(leaf_end(s[a]) <= s[b].ee_block);
        } else {
            assert(leaf_end(s[a - 1]) <= s[b - 1].ee_block);
        }
    }
    assert(!mapped(s, x.ee_block as int)) by {
        if mapped(s, x.ee_block as int) {
            let k = choose|k: int| 0 <= k < s.len() && #[trigger] s[k].ee_block <= x.ee_block && x.ee_block < leaf_end(s[k]);
            if k < pos {
                assert(leaf_end(s[k]) <= x.ee_block);
            }
        }
    }
    assert forall|l: int, p: int| maps_to(t, l, p) <==> (maps_to(s, l, p) || (l == x.ee_block && p == x.ee_start)) by {
        if maps_to(t, l, p) {
            let k = choose|k: int| 0 <= k < t.len() && #[trigger] leaf_maps(t[k], l, p);
            if k < pos {
                assert(leaf_maps(s[k], l, p));
            } else if k > pos {
                assert(leaf_maps(s[k - 1], l, p));
            }
        }
        if maps_to(s, l, p) {
            let k = choose|k: int| 0 <= k < s.len() && #[trigger] leaf_maps(s[k], l, p);
            if k < pos {
                assert(leaf_maps(t[k], l, p));
            } else {
                assert(leaf_maps(t[k + 1], l, p));
            }
        }
        if l == x.ee_block && p == x.ee_start {
            assert(leaf_maps(t[pos], l, p));
        }
    }
}

/// Maps logical block `lblk` to physical block `pblk` in a list of leaves, merging the new
/// one-block leaf with its neighbours where they continue each other.
pub fn insert_extent_leaf(extents: &mut Vec<ExtentLeaf>, lblk: u32, pblk: u64) -> (r: SysResult<()>)
    ensures
        validate_from(old(extents)@, None) is Err ==> r == validate_from(old(extents)@, None) && final(extents)@ == old(extents)@,
        validate_from(old(extents)@, None) is Ok && mapped(old(extents)@, lblk as int) ==> r == Err::<(), Errno>(Errno::EEXIST)
            && final(extents)@ == old(extents)@,
        validate_from(old(extents)@, None) is Ok && !mapped(old(extents)@, lblk as int) ==> {
            &&& r is Ok || r == Err::<(), Errno>(Errno::EINVAL)
            &&& pends_bounded(old(extents)@) && pblk < u64::MAX ==> r is Ok && pends_bounded(final(extents)@)
            &&& forall|l: int, p: int| maps_to(final(extents)@, l, p) <==> (maps_to(old(extents)@, l, p) || (l == lblk && p == pblk))
            &&& lblk < u32::MAX ==> valid_extents(final(extents)@)
            &&& r is Ok ==> leaves_merged(final(extents)@)
        },
{
    validate_extent_leaves(extents.as_slice())?;
    let mut pos: usize = 0;
    while pos < extents.len()
        invariant
            pos <= extents@.len(),
            extents@ == old(extents)@,
            forall|k: int| 0 <= k < pos ==> #[trigger] extents@[k].ee_block <= lblk,
        ensures
            pos <= extents@.len(),
            extents@ == old(extents)@,
            forall|k: int| 0 <= k < pos ==> #[trigger] extents@[k].ee_block <= lblk,
            pos < extents@.len() ==> extents@[pos as int].ee_block > lblk,
        decreases extents@.len() - pos,
    {
        if extents[pos].ee_block > lblk {
            break;
        }
        pos += 1;
    }
    let ghost s = extents@;
    assert forall|k: int| pos <= k < s.len() implies #[trigger] s[k].ee_block > lblk by {
        if k > pos {
            assert(leaf_end(s[pos as int]) <= s[k].ee_block);
        }
    }
    if pos > 0 {
        let prev = extents[pos - 1];
        let prev_end = match prev.ee_block.checked_add(prev.ee_len_raw as u32) {
            Some(e) => e,
            None => return Err(Errno::EINVAL),
        };
        if lblk < prev_end {
            assert(s[pos - 1].ee_block <= lblk && lblk < leaf_end(s[pos - 1]));
            return Err(Errno::EEXIST);
        }
    }
    if pos < extents.len() && lblk == extents[pos].ee_block {
        return Err(Errno::EEXIST);
    }
    let x = ExtentLeaf { ee_block: lblk, ee_len_raw: 1, ee_start: pblk };
    extents.insert(pos, x);
    proof { lemma_insert_leaf(s, pos as int, x, extents@); }
    merge_extent_leaves(extents)
}

/// Removes logical blocks `first_lblk..=last_lblk_inclusive` from a list of leaves: gives the
/// leaves kept (split where the range cuts them) and the physical blocks freed, in order.
pub fn remove_extent_leaves(extents: &[ExtentLeaf], first_lblk: u32, last_lblk_inclusive: u32)
    -> (r: SysResult<(Vec<ExtentLeaf>, Vec<u64>)>)
    requires
        pends_bounded(extents@),
    ensures
        match r {
            Ok((kept, freed)) => validate_from(extents@, None) is Ok
                && kept@ == kept_spec(extents@, first_lblk as int, last_lblk_inclusive + 1)
                && freed@ == freed_spec(extents@, first_lblk as int, last_lblk_inclusive + 1),
            Err(e) => validate_from(extents@, None) == Err::<(), Errno>(e),
        },
{
    validate_extent_leaves(extents)?;
    let first = first_lblk as u64;
    let last_exclusive = last_lblk_inclusive as u64 + 1;
    let ghost fi = first as int;
    let ghost le = last_exclusive as int;
    let mut kept: Vec<ExtentLeaf> = Vec::new();
    let mut blocks_to_free: Vec<u64> = Vec::new();
    let mut i: usize = 0;
    while i < extents.len()
        invariant
            i <= extents@.len(),
            valid_extents(extents@),
            pends_bounded(extents@),
            fi == first_lblk,
            le == last_lblk_inclusive + 1,
            first == fi,
            last_exclusive == le,
            kept@ == kept_spec(extents@.take(i as int), fi, le),
            blocks_to_free@ == freed_spec(extents@.take(i as int), fi, le),
        decreases extents@.len() - i,
    {
        let leaf = extents[i];
        proof {
            assert(extents@.take(i + 1).drop_last() =~= extents@.take(i as int));
            assert(extents@.take(i + 1).last() == leaf);
            assert(wf_leaf(extents@[i as int]));
        }
        let len = leaf.ee_len_raw as u64;
        let leaf_block = leaf.ee_block as u64;
        let leaf_end = leaf_block + len;
        if leaf_end <= first || leaf_block >= last_exclusive {
            kept.push(leaf);
            proof {
                assert(kept@ =~= kept_spec(extents@.take(i as int), fi, le) + kept_pieces(leaf, fi, le));
                assert(blocks_to_free@ =~= freed_spec(extents@.take(i as int), fi, le) + freed_blocks(leaf, fi, le));
            }
            i += 1;
            continue;
        }
        let ov_start = if leaf_block > first { leaf_block } else { first };
        let ov_end = if leaf_end < last_exclusive { leaf_end } else { last_exclusive };
        let ghost k0 = kept@;
        let ghost f0 = blocks_to_free@;
        if leaf_block < ov_start {
            kept.push(ExtentLeaf { ee_block: leaf.ee_block, ee_len_raw: (ov_start - leaf_block) as u16, ee_start: leaf.ee_start });
        }
        let mut cur = ov_start;
        while cur < ov_end
            invariant
                ov_start <= cur,
                cur <= ov_end || cur == ov_start,
                leaf_block <= ov_start,
                ov_end <= leaf_end,
                leaf_end == leaf.ee_block + leaf.ee_len_raw,
                leaf_block == leaf.ee_block,
                leaf.ee_start + leaf.ee_len_raw <= u64::MAX,
                blocks_to_free@ == f0 + Seq::new((cur - ov_start) as nat, |k: int| (leaf.ee_start + (ov_start - leaf_block) + k) as u64),
            decreases ov_end - cur,
        {
            let off = cur - leaf_block;
            blocks_to_free.push(leaf.ee_start + off);
            cur += 1;
            assert(blocks_to_free@ =~= f0 + Seq::new((cur - ov_start) as nat, |k: int| (leaf.ee_start + (ov_start - leaf_block) + k) as u64));
        }
        if ov_end < leaf_end {
            let keep_len = (leaf_end - ov_end) as u16;
            let off = ov_end - leaf_block;
            kept.push(ExtentLeaf { ee_block: ov_end as u32, ee_len_raw: keep_len, ee_start: leaf.ee_start + off });
        }
        proof {
            assert(kept@ =~= kept_spec(extents@.take(i as int), fi, le) + kept_pieces(leaf, fi, le));
            assert(blocks_to_free@ =~= freed_spec(extents@.take(i as int), fi, le) + freed_blocks(leaf, fi, le));
        }
        i += 1;
    }
    assert(extents@.take(i as int) =~= extents@);
    Ok((kept, blocks_to_free))
}

} // verus!
