//! A per-inode cache of file pages, kept in page order, with dirty tracking and a capacity
//! past which clean pages are dropped.
use vstd::prelude::*;
use crate::bytes::{splice, copy_into, copy_range, fill_zero};

verus! {

/// The size of a cached page.
pub const CACHE_PAGE_SIZE: usize = 4096;
/// How many pages an inode's cache keeps before dropping clean ones.
pub const INODE_PAGE_CACHE_CAPACITY: usize = 64;

/// A cached page of a file: its index in the file, its bytes and whether they changed.
pub struct CachedPage {
    pub index: usize,
    pub frame: Vec<u8>,
    pub dirty: bool,
}

/// The cached pages of one file.
pub struct InodePageCache {
    pub pages: Vec<CachedPage>,
    pub capacity: usize,
}

/// Pages are in strictly increasing index order and each holds a whole page.
pub open spec fn pages_ok(s: Seq<CachedPage>) -> bool {
    &&& forall|i: int, j: int| #![trigger s[i], s[j]] 0 <= i < j < s.len() ==> s[i].index < s[j].index
    &&& forall|i: int| 0 <= i < s.len() ==> (#[trigger] s[i]).frame@.len() == CACHE_PAGE_SIZE
}

/// The page `idx` is cached.
pub open spec fn cached(s: Seq<CachedPage>, idx: int) -> bool {
    exists|k: int| 0 <= k < s.len() && (#[trigger] s[k]).index == idx
}

/// The bytes and dirty flag of page `idx`, which is cached.
pub open spec fn page_of(s: Seq<CachedPage>, idx: int) -> (Seq<u8>, bool) {
    let k = choose|k: int| 0 <= k < s.len() && (#[trigger] s[k]).index == idx;
    (s[k].frame@, s[k].dirty)
}

/// In ordered pages, the page of an index is the one at any position holding it.
pub proof fn lemma_page_at(s: Seq<CachedPage>, k: int)
    requires
        pages_ok(s),
        0 <= k < s.len(),
    ensures
        cached(s, s[k].index as int),
        page_of(s, s[k].index as int) == (s[k].frame@, s[k].dirty),
{
    let idx = s[k].index as int;
    assert(0 <= k < s.len() && s[k].index == idx);
    let q = choose|q: int| 0 <= q < s.len() && (#[trigger] s[q]).index == idx;
    if q != k {
        if q < k {
            assert(s[q].index < s[k].index);
        } else {
            assert(s[k].index < s[q].index);
        }
    }
}

/// The page keeps what it was, but for the removal of clean pages.
pub open spec fn only_clean_dropped(new: Seq<CachedPage>, old: Seq<CachedPage>) -> bool {
    &&& forall|idx: int| cached(new, idx) ==> cached(old, idx) && page_of(new, idx) == page_of(old, idx)
    &&& forall|idx: int| cached(old, idx) && page_of(old, idx).1 ==> cached(new, idx)
}

/// No clean page is cached.
pub open spec fn all_dirty(s: Seq<CachedPage>) -> bool {
    forall|k: int| 0 <= k < s.len() ==> (#[trigger] s[k]).dirty
}

impl InodePageCache {
    /// The cache is ordered and holds whole pages.
    pub open spec fn wf(&self) -> bool {
        pages_ok(self.pages@)
    }

    /// An empty cache of the default capacity.
    pub fn new() -> (r: Self)
        ensures
            r.wf(),
            r.pages@.len() == 0,
            r.capacity == INODE_PAGE_CACHE_CAPACITY,
    {
        InodePageCache { pages: Vec::new(), capacity: INODE_PAGE_CACHE_CAPACITY }
    }

    /// Where page `page_index` sits, if it is cached.
    fn position(&self, page_index: usize) -> (r: Option<usize>)
        requires
            self.wf(),
        ensures
            match r {
                Some(k) => k < self.pages@.len() && self.pages@[k as int].index == page_index,
                None => !cached(self.pages@, page_index as int),
            },
    {
        let mut i: usize = 0;
        while i < self.pages.len()
            invariant
                i <= self.pages@.len(),
                forall|k: int| 0 <= k < i ==> (#[trigger] self.pages@[k]).index != page_index,
            decreases self.pages@.len() - i,
        {
            if self.pages[i].index == page_index {
                return Some(i);
            }
            i += 1;
        }
        None
    }

    /// A copy of page `page_index`, if it is cached.
    pub fn get_frame(&self, page_index: usize) -> (r: Option<Vec<u8>>)
        requires
            self.wf(),
        ensures
            match r {
                Some(f) => cached(self.pages@, page_index as int) && f@ == page_of(self.pages@, page_index as int).0,
                None => !cached(self.pages@, page_index as int),
            },
    {
        match self.position(page_index) {
            Some(k) => {
                proof {
                    lemma_page_at(self.pages@, k as int);
                }
                Some(copy_range(self.pages[k].frame.as_slice(), 0, self.pages[k].frame.len()))
            },
            None => None,
        }
    }

    /// Drops the first clean page in order; gives whether there was one.
    fn remove_reclaimable_page(&mut self) -> (r: bool)
        requires
            old(self).wf(),
        ensures
            final(self).wf(),
            final(self).capacity == old(self).capacity,
            only_clean_dropped(final(self).pages@, old(self).pages@),
            r ==> final(self).pages@.len() + 1 == old(self).pages@.len(),
            !r ==> final(self).pages@ == old(self).pages@ && all_dirty(old(self).pages@),
    {
        let mut i: usize = 0;
        while i < self.pages.len()
            invariant
                i <= self.pages@.len(),
                self.pages@ == old(self).pages@,
                self.capacity == old(self).capacity,
                self.wf(),
                forall|k: int| 0 <= k < i ==> (#[trigger] self.pages@[k]).dirty,
            decreases self.pages@.len() - i,
        {
            if !self.pages[i].dirty {
                let ghost s = self.pages@;
                let _gone = self.pages.remove(i);
                proof {
                    let t = self.pages@;
                    assert(t =~= s.remove(i as int));
                    assert forall|a: int, b: int| #![trigger t[a], t[b]] 0 <= a < b < t.len() implies t[a].index < t[b].index by {
                        let a2 = if a < i { a } else { a + 1 };
                        let b2 = if b < i { b } else { b + 1 };
                        assert(t[a] == s[a2] && t[b] == s[b2]);
                    }
                    assert forall|q: int| 0 <= q < t.len() implies (#[trigger] t[q]).frame@.len() == CACHE_PAGE_SIZE by {
                        let q2 = if q < i { q } else { q + 1 };
                        assert(t[q] == s[q2]);
                    }
                    assert forall|idx: int| cached(t, idx) implies cached(s, idx) && page_of(t, idx) == page_of(s, idx) by {
                        let q = choose|q: int| 0 <= q < t.len() && (#[trigger] t[q]).index == idx;
                        let q2 = if q < i { q } else { q + 1 };
                        assert(t[q] == s[q2]);
                        lemma_page_at(t, q);
                        lemma_page_at(s, q2);
                    }
                    assert forall|idx: int| cached(s, idx) && page_of(s, idx).1 implies cached(t, idx) by {
                        let q = choose|q: int| 0 <= q < s.len() && (#[trigger] s[q]).index == idx;
                        lemma_page_at(s, q);
                        assert(q != i);
                        let q2 = if q < i { q } else { q - 1 };
                        assert(t[q2] == s[q]);
                    }
                }
                return true;
            }
            i += 1;
        }
        false
    }

    /// Drops clean pages while the cache is over its capacity.
    pub fn shrink_to_capacity(&mut self)
        requires
            old(self).wf(),
        ensures
            final(self).wf(),
            final(self).capacity == old(self).capacity,
            only_clean_dropped(final(self).pages@, old(self).pages@),
            final(self).pages@.len() <= final(self).capacity || all_dirty(final(self).pages@),
    {
        while self.pages.len() > self.capacity
            invariant
                self.wf(),
                self.capacity == old(self).capacity,
                only_clean_dropped(self.pages@, old(self).pages@),
            ensures
                self.wf(),
                self.capacity == old(self).capacity,
                only_clean_dropped(self.pages@, old(self).pages@),
                self.pages@.len() <= self.capacity || all_dirty(self.pages@),
            decreases self.pages@.len(),
        {
            let ghost before = self.pages@;
            if !self.remove_reclaimable_page() {
                break;
            }
            proof {
                lemma_clean_dropped_trans(self.pages@, before, old(self).pages@);
            }
        }
    }

    /// Drops clean pages until there is room for one more.
    fn shrink_for_insert(&mut self)
        requires
            old(self).wf(),
        ensures
            final(self).wf(),
            final(self).capacity == old(self).capacity,
            only_clean_dropped(final(self).pages@, old(self).pages@),
            final(self).pages@.len() < final(self).capacity || all_dirty(final(self).pages@),
    {
        while self.pages.len() >= self.capacity
            invariant
                self.wf(),
                self.capacity == old(self).capacity,
                only_clean_dropped(self.pages@, old(self).pages@),
            ensures
                self.wf(),
                self.capacity == old(self).capacity,
                only_clean_dropped(self.pages@, old(self).pages@),
                self.pages@.len() < self.capacity || all_dirty(self.pages@),
            decreases self.pages@.len(),
        {
            let ghost before = self.pages@;
            if !self.remove_reclaimable_page() {
                break;
            }
            proof {
                lemma_clean_dropped_trans(self.pages@, before, old(self).pages@);
            }
        }
    }
}

impl InodePageCache {
    /// Puts a page not cached yet into its place in the order.
    fn insert_sorted(&mut self, page: CachedPage)
        requires
            old(self).wf(),
            !cached(old(self).pages@, page.index as int),
            page.frame@.len() == CACHE_PAGE_SIZE,
        ensures
            final(self).wf(),
            final(self).capacity == old(self).capacity,
            final(self).pages@.len() == old(self).pages@.len() + 1,
            cached(final(self).pages@, page.index as int),
            page_of(final(self).pages@, page.index as int) == (page.frame@, page.dirty),
            forall|j: int| j != page.index ==> (cached(final(self).pages@, j) <==> cached(old(self).pages@, j)),
            forall|j: int| j != page.index && cached(old(self).pages@, j) ==> page_of(final(self).pages@, j) == page_of(old(self).pages@, j),
    {
        let mut pos: usize = 0;
        while pos < self.pages.len()
            invariant
                pos <= self.pages@.len(),
                self.pages@ == old(self).pages@,
                !cached(self.pages@, page.index as int),
                forall|k: int| 0 <= k < pos ==> (#[trigger] self.pages@[k]).index < page.index,
            ensures
                pos <= self.pages@.len(),
                self.pages@ == old(self).pages@,
                forall|k: int| 0 <= k < pos ==> (#[trigger] self.pages@[k]).index < page.index,
                pos < self.pages@.len() ==> self.pages@[pos as int].index > page.index,
            decreases self.pages@.len() - pos,
        {
            if self.pages[pos].index > page.index {
                break;
            }
            proof {
                assert(self.pages@[pos as int].index != page.index);
            }
            pos += 1;
        }
        let ghost s = self.pages@;
        let ghost x = page;
        self.pages.insert(pos, page);
        proof {
            let t = self.pages@;
            assert(t =~= s.insert(pos as int, x));
            assert forall|k: int| pos < k < t.len() implies (#[trigger] t[k]).index > x.index by {
                assert(t[k] == s[k - 1]);
                if k - 1 > pos {
                    assert(s[pos as int].index < s[k - 1].index);
                }
            }
            assert forall|a: int, b: int| #![trigger t[a], t[b]] 0 <= a < b < t.len() implies t[a].index < t[b].index by {
                if a < pos && b < pos {
                    assert(t[a] == s[a] && t[b] == s[b]);
                } else if a < pos && b == pos {
                    assert(t[a] == s[a]);
                } else if a < pos {
                    assert(t[a] == s[a] && t[b] == s[b - 1]);
                    assert(s[a].index < x.index);
                } else if a == pos {
                } else {
                    assert(t[a] == s[a - 1] && t[b] == s[b - 1]);
                }
            }
            assert forall|q: int| 0 <= q < t.len() implies (#[trigger] t[q]).frame@.len() == CACHE_PAGE_SIZE by {
                if q < pos {
                    assert(t[q] == s[q]);
                } else if q > pos {
                    assert(t[q] == s[q - 1]);
                }
            }
            assert(t[pos as int] == x);
            lemma_page_at(t, pos as int);
            assert forall|j: int| j != x.index implies (cached(t, j) <==> cached(s, j)) by {
                if cached(t, j) {
                    let q = choose|q: int| 0 <= q < t.len() && (#[trigger] t[q]).index == j;
                    if q < pos {
                        assert(t[q] == s[q]);
                    } else {
                        assert(q != pos);
                        assert(t[q] == s[q - 1]);
                    }
                }
                if cached(s, j) {
                    let q = choose|q: int| 0 <= q < s.len() && (#[trigger] s[q]).index == j;
                    if q < pos {
                        assert(t[q] == s[q]);
                    } else {
                        assert(t[q + 1] == s[q]);
                    }
                }
            }
            assert forall|j: int| j != x.index && cached(s, j) implies page_of(t, j) == page_of(s, j) by {
                let q = choose|q: int| 0 <= q < s.len() && (#[trigger] s[q]).index == j;
                lemma_page_at(s, q);
                if q < pos {
                    assert(t[q] == s[q]);
                    lemma_page_at(t, q);
                } else {
                    assert(t[q + 1] == s[q]);
                    lemma_page_at(t, q + 1);
                }
            }
        }
    }

    /// Caches `frame` as page `page_index`, clean, dropping clean pages to make room; a page
    /// already cached is kept and its bytes given instead. With no capacity nothing is cached.
    pub fn insert_frame(&mut self, page_index: usize, frame: Vec<u8>) -> (r: Vec<u8>)
        requires
            old(self).wf(),
            frame@.len() == CACHE_PAGE_SIZE,
        ensures
            final(self).wf(),
            final(self).capacity == old(self).capacity,
            old(self).capacity == 0 ==> r@ == frame@ && final(self).pages@ == old(self).pages@,
            old(self).capacity != 0 && cached(old(self).pages@, page_index as int) ==> r@ == page_of(old(self).pages@, page_index as int).0
                && final(self).pages@ == old(self).pages@,
            old(self).capacity != 0 && !cached(old(self).pages@, page_index as int) ==> {
                &&& r@ == frame@
                &&& cached(final(self).pages@, page_index as int)
                &&& page_of(final(self).pages@, page_index as int) == (frame@, false)
                &&& forall|j: int| j != page_index ==> (cached(final(self).pages@, j) ==> cached(old(self).pages@, j)
                    && page_of(final(self).pages@, j) == page_of(old(self).pages@, j))
                &&& forall|j: int| j != page_index && cached(old(self).pages@, j) && page_of(old(self).pages@, j).1
                    ==> cached(final(self).pages@, j)
            },
    {
        if self.capacity == 0 {
            return frame;
        }
        match self.get_frame(page_index) {
            Some(existing) => return existing,
            None => {},
        }
        self.shrink_for_insert();
        let copy = copy_range(frame.as_slice(), 0, frame.len());
        self.insert_sorted(CachedPage { index: page_index, frame: copy, dirty: false });
        frame
    }

    /// Sets the dirty flag of the page at position `k`.
    fn set_dirty_at(&mut self, k: usize, flag: bool)
        requires
            old(self).wf(),
            k < old(self).pages@.len(),
        ensures
            final(self).wf(),
            final(self).capacity == old(self).capacity,
            final(self).pages@.len() == old(self).pages@.len(),
            forall|j: int| cached(final(self).pages@, j) <==> cached(old(self).pages@, j),
            forall|j: int| j != old(self).pages@[k as int].index && cached(old(self).pages@, j)
                ==> page_of(final(self).pages@, j) == page_of(old(self).pages@, j),
            page_of(final(self).pages@, old(self).pages@[k as int].index as int) == (old(self).pages@[k as int].frame@, flag),
    {
        let ghost s = self.pages@;
        let mut p = self.pages.remove(k);
        p.dirty = flag;
        let ghost x = p;
        self.pages.insert(k, p);
        proof {
            let t = self.pages@;
            assert(t =~= s.update(k as int, x));
            assert forall|a: int, b: int| #![trigger t[a], t[b]] 0 <= a < b < t.len() implies t[a].index < t[b].index by {
                assert(t[a].index == s[a].index && t[b].index == s[b].index);
            }
            assert forall|q: int| 0 <= q < t.len() implies (#[trigger] t[q]).frame@.len() == CACHE_PAGE_SIZE by {
                assert(t[q].frame@ == s[q].frame@);
            }
            assert forall|j: int| cached(t, j) <==> cached(s, j) by {
                if cached(t, j) {
                    let q = choose|q: int| 0 <= q < t.len() && (#[trigger] t[q]).index == j;
                    assert(s[q].index == t[q].index);
                }
                if cached(s, j) {
                    let q = choose|q: int| 0 <= q < s.len() && (#[trigger] s[q]).index == j;
                    assert(s[q].index == t[q].index);
                }
            }
            assert forall|j: int| j != s[k as int].index && cached(s, j) implies page_of(t, j) == page_of(s, j) by {
                let q = choose|q: int| 0 <= q < s.len() && (#[trigger] s[q]).index == j;
                lemma_page_at(s, q);
                assert(q != k);
                assert(t[q] == s[q]);
                lemma_page_at(t, q);
            }
            lemma_page_at(t, k as int);
        }
    }

    /// Marks page `page_index` dirty, if it is cached.
    pub fn mark_dirty(&mut self, page_index: usize)
        requires
            old(self).wf(),
        ensures
            final(self).wf(),
            final(self).capacity == old(self).capacity,
            forall|j: int| cached(final(self).pages@, j) <==> cached(old(self).pages@, j),
            forall|j: int| j != page_index && cached(old(self).pages@, j) ==> page_of(final(self).pages@, j) == page_of(old(self).pages@, j),
            cached(old(self).pages@, page_index as int) ==> page_of(final(self).pages@, page_index as int)
                == (page_of(old(self).pages@, page_index as int).0, true),
    {
        match self.position(page_index) {
            Some(k) => {
                proof {
                    lemma_page_at(self.pages@, k as int);
                }
                self.set_dirty_at(k, true);
            },
            None => {},
        }
    }

    /// Marks page `page_index` clean, if it is cached.
    pub fn mark_clean(&mut self, page_index: usize)
        requires
            old(self).wf(),
        ensures
            final(self).wf(),
            final(self).capacity == old(self).capacity,
            forall|j: int| cached(final(self).pages@, j) <==> cached(old(self).pages@, j),
            forall|j: int| j != page_index && cached(old(self).pages@, j) ==> page_of(final(self).pages@, j) == page_of(old(self).pages@, j),
            cached(old(self).pages@, page_index as int) ==> page_of(final(self).pages@, page_index as int)
                == (page_of(old(self).pages@, page_index as int).0, false),
    {
        match self.position(page_index) {
            Some(k) => {
                proof {
                    lemma_page_at(self.pages@, k as int);
                }
                self.set_dirty_at(k, false);
            },
            None => {},
        }
    }

    /// The indices of the dirty pages, in order.
    pub fn dirty_pages(&self) -> (r: Vec<usize>)
        requires
            self.wf(),
        ensures
            r@ == dirty_indices(self.pages@),
    {
        let mut out: Vec<usize> = Vec::new();
        let mut i: usize = 0;
        while i < self.pages.len()
            invariant
                i <= self.pages@.len(),
                out@ == dirty_indices(self.pages@.subrange(0, i as int)),
            decreases self.pages@.len() - i,
        {
            proof {
                assert(self.pages@.subrange(0, i + 1).drop_last() =~= self.pages@.subrange(0, i as int));
            }
            if self.pages[i].dirty {
                out.push(self.pages[i].index);
            }
            i += 1;
        }
        proof {
            assert(self.pages@.subrange(0, i as int) =~= self.pages@);
        }
        out
    }

    /// Whether any page is dirty.
    pub fn has_dirty_page(&self) -> (r: bool)
        ensures
            r == exists|k: int| 0 <= k < self.pages@.len() && (#[trigger] self.pages@[k]).dirty,
    {
        let mut i: usize = 0;
        while i < self.pages.len()
            invariant
                i <= self.pages@.len(),
                forall|k: int| 0 <= k < i ==> !(#[trigger] self.pages@[k]).dirty,
            decreases self.pages@.len() - i,
        {
            if self.pages[i].dirty {
                return true;
            }
            i += 1;
        }
        false
    }

    /// Forgets every page.
    pub fn clear(&mut self)
        ensures
            final(self).wf(),
            final(self).pages@.len() == 0,
            final(self).capacity == old(self).capacity,
    {
        self.pages = Vec::new();
    }

    /// Whether more pages are cached than the capacity allows.
    pub fn is_over_capacity(&self) -> (r: bool)
        ensures
            r == (self.capacity != 0 && self.pages@.len() > self.capacity),
    {
        self.capacity != 0 && self.pages.len() > self.capacity
    }
}

/// The byte at file position `pos` as the cache has it, else `old`.
pub open spec fn cache_byte(s: Seq<CachedPage>, pos: int, old: u8) -> u8 {
    let p = pos / (CACHE_PAGE_SIZE as int);
    if cached(s, p) { page_of(s, p).0[pos % (CACHE_PAGE_SIZE as int)] } else { old }
}

/// The chunk from file position `cur` up to `len` bytes stays within one page.
pub proof fn lemma_chunk_in_page(cur: int, t: int, page_offset: int, page_index: int)
    requires
        cur >= 0,
        page_index == cur / (CACHE_PAGE_SIZE as int),
        page_offset == cur % (CACHE_PAGE_SIZE as int),
        0 <= t < CACHE_PAGE_SIZE - page_offset,
    ensures
        (cur + t) / (CACHE_PAGE_SIZE as int) == page_index,
        (cur + t) % (CACHE_PAGE_SIZE as int) == page_offset + t,
{
    assert((cur + t) / 4096 == cur / 4096 && (cur + t) % 4096 == cur % 4096 + t) by (nonlinear_arith)
        requires
            cur >= 0,
            0 <= t < 4096 - cur % 4096,
    {
    }
}

impl InodePageCache {
    /// Copies the cached bytes of file positions `offset..offset + len` into `buf`; bytes of
    /// pages not cached are left as they were.
    pub fn copy_to_slice(&self, buf: &mut Vec<u8>, offset: usize, len: usize)
        requires
            self.wf(),
            len <= old(buf)@.len(),
            offset + len <= usize::MAX,
        ensures
            final(buf)@.len() == old(buf)@.len(),
            forall|i: int| 0 <= i < len ==> #[trigger] final(buf)@[i] == cache_byte(self.pages@, offset + i, old(buf)@[i]),
            forall|i: int| len <= i < old(buf)@.len() ==> #[trigger] final(buf)@[i] == old(buf)@[i],
    {
        let mut copied: usize = 0;
        while copied < len
            invariant
                self.wf(),
                copied <= len,
                len <= buf@.len(),
                buf@.len() == old(buf)@.len(),
                offset + len <= usize::MAX,
                forall|i: int| 0 <= i < copied ==> #[trigger] buf@[i] == cache_byte(self.pages@, offset + i, old(buf)@[i]),
                forall|i: int| copied <= i < buf@.len() ==> #[trigger] buf@[i] == old(buf)@[i],
            decreases len - copied,
        {
            let current = offset + copied;
            let page_index = current / CACHE_PAGE_SIZE;
            let page_offset = current % CACHE_PAGE_SIZE;
            let copy_len = if len - copied < CACHE_PAGE_SIZE - page_offset { len - copied } else { CACHE_PAGE_SIZE - page_offset };
            let ghost b0 = buf@;
            match self.position(page_index) {
                Some(k) => {
                    proof {
                        lemma_page_at(self.pages@, k as int);
                    }
                    let piece = copy_range(self.pages[k].frame.as_slice(), page_offset, page_offset + copy_len);
                    copy_into(buf, copied, piece.as_slice());
                    proof {
                        assert forall|i: int| 0 <= i < copied + copy_len implies #[trigger] buf@[i]
                            == cache_byte(self.pages@, offset + i, old(buf)@[i]) by {
                            if i < copied {
                                assert(buf@[i] == b0[i]);
                            } else {
                                lemma_chunk_in_page(current as int, i - copied, page_offset as int, page_index as int);
                                assert(buf@[i] == piece@[i - copied]);
                                assert(b0[i] == old(buf)@[i]);
                            }
                        }
                        assert forall|i: int| copied + copy_len <= i < buf@.len() implies #[trigger] buf@[i] == old(buf)@[i] by {
                            assert(buf@[i] == b0[i]);
                        }
                    }
                },
                None => {
                    proof {
                        assert forall|i: int| 0 <= i < copied + copy_len implies #[trigger] buf@[i]
                            == cache_byte(self.pages@, offset + i, old(buf)@[i]) by {
                            if i >= copied {
                                lemma_chunk_in_page(current as int, i - copied, page_offset as int, page_index as int);
                            }
                        }
                    }
                },
            }
            copied += copy_len;
        }
    }

    /// Forgets the pages past a new file size of `new_size` bytes and zeroes the cached bytes
    /// past it in its last page.
    pub fn discard_after_truncate(&mut self, new_size: usize)
        requires
            old(self).wf(),
        ensures
            final(self).wf(),
            final(self).capacity == old(self).capacity,
            ({
                let n = new_size as int;
                let count = n / 4096 + if n % 4096 != 0 { 1int } else { 0int };
                let tail = n % 4096;
                &&& forall|j: int| cached(final(self).pages@, j) <==> (cached(old(self).pages@, j) && j < count)
                &&& forall|j: int| cached(old(self).pages@, j) && j < count && (tail == 0 || j != count - 1)
                    ==> page_of(final(self).pages@, j) == page_of(old(self).pages@, j)
                &&& tail != 0 && cached(old(self).pages@, count - 1) ==> page_of(final(self).pages@, count - 1)
                    == (splice(page_of(old(self).pages@, count - 1).0, tail,
                        Seq::new((4096 - tail) as nat, |i: int| 0u8)), page_of(old(self).pages@, count - 1).1)
            }),
    {
        let new_page_count = new_size / CACHE_PAGE_SIZE + if new_size % CACHE_PAGE_SIZE != 0 { 1 } else { 0 };
        let ghost s0 = self.pages@;
        while self.pages.len() > 0 && self.pages[self.pages.len() - 1].index >= new_page_count
            invariant
                self.wf(),
                self.capacity == old(self).capacity,
                s0 == old(self).pages@,
                self.pages@ == s0.subrange(0, self.pages@.len() as int),
                self.pages@.len() <= s0.len(),
                forall|k: int| self.pages@.len() <= k < s0.len() ==> (#[trigger] s0[k]).index >= new_page_count,
            decreases self.pages@.len(),
        {
            let ghost before = self.pages@;
            let _gone = self.pages.pop();
            proof {
                assert(self.pages@ =~= s0.subrange(0, self.pages@.len() as int));
                assert forall|k: int| self.pages@.len() <= k < s0.len() implies (#[trigger] s0[k]).index >= new_page_count by {
                    if k == self.pages@.len() {
                        assert(s0[k] == before[k]);
                    }
                }
            }
        }
        let ghost kept = self.pages@;
        proof {
            assert forall|k: int| 0 <= k < kept.len() implies (#[trigger] kept[k]).index < new_page_count by {
                assert(kept[k] == s0[k]);
                if kept.len() > 0 {
                    assert(kept[kept.len() - 1].index < new_page_count);
                    if k < kept.len() - 1 {
                        assert(kept[k].index < kept[kept.len() - 1].index);
                    }
                }
            }
            assert forall|j: int| cached(kept, j) <==> (cached(s0, j) && j < new_page_count) by {
                if cached(kept, j) {
                    let q = choose|q: int| 0 <= q < kept.len() && (#[trigger] kept[q]).index == j;
                    assert(kept[q] == s0[q]);
                }
                if cached(s0, j) && j < new_page_count {
                    let q = choose|q: int| 0 <= q < s0.len() && (#[trigger] s0[q]).index == j;
                    if q >= kept.len() {
                        assert(s0[q].index >= new_page_count);
                    } else {
                        assert(kept[q] == s0[q]);
                    }
                }
            }
            assert forall|j: int| cached(kept, j) implies page_of(kept, j) == page_of(s0, j) by {
                let q = choose|q: int| 0 <= q < kept.len() && (#[trigger] kept[q]).index == j;
                assert(kept[q] == s0[q]);
                lemma_page_at(kept, q);
                lemma_page_at(s0, q);
            }
        }
        let tail_offset = new_size % CACHE_PAGE_SIZE;
        if tail_offset != 0 {
            match self.position(new_page_count - 1) {
                Some(k) => {
                    let ghost s = self.pages@;
                    let mut p = self.pages.remove(k);
                    fill_zero(&mut p.frame, tail_offset, CACHE_PAGE_SIZE);
                    let ghost x = p;
                    self.pages.insert(k, p);
                    proof {
                        let t = self.pages@;
                        assert(t =~= s.update(k as int, x));
                        assert forall|a: int, b: int| #![trigger t[a], t[b]] 0 <= a < b < t.len() implies t[a].index < t[b].index by {
                            assert(t[a].index == s[a].index && t[b].index == s[b].index);
                        }
                        assert forall|q: int| 0 <= q < t.len() implies (#[trigger] t[q]).frame@.len() == CACHE_PAGE_SIZE by {
                            if q != k {
                                assert(t[q] == s[q]);
                            }
                        }
                        assert forall|j: int| cached(t, j) <==> cached(s, j) by {
                            if cached(t, j) {
                                let q = choose|q: int| 0 <= q < t.len() && (#[trigger] t[q]).index == j;
                                assert(s[q].index == t[q].index);
                            }
                            if cached(s, j) {
                                let q = choose|q: int| 0 <= q < s.len() && (#[trigger] s[q]).index == j;
                                assert(s[q].index == t[q].index);
                            }
                        }
                        assert forall|j: int| j != s[k as int].index && cached(s, j) implies page_of(t, j) == page_of(s, j) by {
                            let q = choose|q: int| 0 <= q < s.len() && (#[trigger] s[q]).index == j;
                            lemma_page_at(s, q);
                            assert(q != k);
                            assert(t[q] == s[q]);
                            lemma_page_at(t, q);
                        }
                        lemma_page_at(t, k as int);
                        lemma_page_at(s, k as int);
                    }
                },
                None => {},
            }
        }
    }
}

/// The page holding file position `pos`.
pub open spec fn pos_page(pos: int) -> int {
    pos / (CACHE_PAGE_SIZE as int)
}

/// Every page holding a byte of positions `offset..offset + len` is cached.
pub open spec fn covered(s: Seq<CachedPage>, offset: int, len: int) -> bool {
    forall|pos: int| offset <= pos < offset + len ==> #[trigger] cached(s, pos_page(pos))
}

/// Page `j` holds a byte of positions `offset..offset + n`.
pub open spec fn touches(j: int, offset: int, n: int) -> bool {
    n > 0 && j * 4096 < offset + n && offset < j * 4096 + 4096
}

/// The bytes `p` of page `j` once `data` is written at file position `offset`.
pub open spec fn page_after_write(p: Seq<u8>, j: int, offset: int, data: Seq<u8>) -> Seq<u8> {
    Seq::new(p.len(), |m: int| if offset <= j * 4096 + m < offset + data.len() { data[j * 4096 + m - offset] } else { p[m] })
}

/// A position lies in the page that its quotient names.
pub proof fn lemma_pos_in_page(j: int, m: int)
    requires
        0 <= m < 4096,
    ensures
        pos_page(j * 4096 + m) == j,
{
    assert((j * 4096 + m) / 4096 == j) by (nonlinear_arith)
        requires
            0 <= m < 4096,
    {
    }
}

impl InodePageCache {
    /// Puts `page` in place of the page at position `k`, which has the same index.
    fn replace_at(&mut self, k: usize, page: CachedPage)
        requires
            old(self).wf(),
            k < old(self).pages@.len(),
            page.index == old(self).pages@[k as int].index,
            page.frame@.len() == CACHE_PAGE_SIZE,
        ensures
            final(self).wf(),
            final(self).capacity == old(self).capacity,
            final(self).pages@.len() == old(self).pages@.len(),
            forall|j: int| cached(final(self).pages@, j) <==> cached(old(self).pages@, j),
            forall|j: int| j != page.index && cached(old(self).pages@, j)
                ==> page_of(final(self).pages@, j) == page_of(old(self).pages@, j),
            page_of(final(self).pages@, page.index as int) == (page.frame@, page.dirty),
    {
        let ghost s = self.pages@;
        let ghost x = page;
        let _gone = self.pages.remove(k);
        self.pages.insert(k, page);
        proof {
            let t = self.pages@;
            assert(t =~= s.update(k as int, x));
            assert forall|a: int, b: int| #![trigger t[a], t[b]] 0 <= a < b < t.len() implies t[a].index < t[b].index by {
                assert(t[a].index == s[a].index && t[b].index == s[b].index);
            }
            assert forall|q: int| 0 <= q < t.len() implies (#[trigger] t[q]).frame@.len() == CACHE_PAGE_SIZE by {
                if q != k {
                    assert(t[q] == s[q]);
                }
            }
            assert forall|j: int| cached(t, j) <==> cached(s, j) by {
                if cached(t, j) {
                    let q = choose|q: int| 0 <= q < t.len() && (#[trigger] t[q]).index == j;
                    assert(s[q].index == t[q].index);
                }
                if cached(s, j) {
                    let q = choose|q: int| 0 <= q < s.len() && (#[trigger] s[q]).index == j;
                    assert(s[q].index == t[q].index);
                }
            }
            assert forall|j: int| j != x.index && cached(s, j) implies page_of(t, j) == page_of(s, j) by {
                let q = choose|q: int| 0 <= q < s.len() && (#[trigger] s[q]).index == j;
                lemma_page_at(s, q);
                assert(q != k);
                assert(t[q] == s[q]);
                lemma_page_at(t, q);
            }
            lemma_page_at(t, k as int);
        }
    }

    /// Whether every page holding a byte of positions `offset..offset + buf.len()` is cached.
    fn all_cached(&self, buf_len: usize, offset: usize) -> (r: bool)
        requires
            self.wf(),
            offset + buf_len <= usize::MAX,
        ensures
            r == covered(self.pages@, offset as int, buf_len as int),
    {
        let mut checked: usize = 0;
        while checked < buf_len
            invariant
                self.wf(),
                checked <= buf_len,
                offset + buf_len <= usize::MAX,
                forall|pos: int| offset <= pos < offset + checked ==> #[trigger] cached(self.pages@, pos_page(pos)),
            decreases buf_len - checked,
        {
            let current = offset + checked;
            let page_index = current / CACHE_PAGE_SIZE;
            let page_offset = current % CACHE_PAGE_SIZE;
            let copy_len = if buf_len - checked < CACHE_PAGE_SIZE - page_offset { buf_len - checked } else { CACHE_PAGE_SIZE - page_offset };
            match self.position(page_index) {
                None => {
                    assert(!cached(self.pages@, pos_page(current as int)));
                    return false;
                },
                Some(k) => {
                    proof {
                        lemma_page_at(self.pages@, k as int);
                        assert forall|pos: int| offset <= pos < offset + checked + copy_len implies #[trigger] cached(self.pages@, pos_page(pos)) by {
                            if pos >= current {
                                lemma_chunk_in_page(current as int, pos - current, page_offset as int, page_index as int);
                            }
                        }
                    }
                },
            }
            checked += copy_len;
        }
        true
    }

    /// Writes `buf` at file position `offset` into the cached pages and marks them dirty, if
    /// every page it touches is cached; else changes nothing and answers `false`.
    pub fn write_if_cached(&mut self, buf: &[u8], offset: usize) -> (r: bool)
        requires
            old(self).wf(),
            offset + buf@.len() <= usize::MAX,
        ensures
            final(self).wf(),
            final(self).capacity == old(self).capacity,
            r == covered(old(self).pages@, offset as int, buf@.len() as int),
            !r ==> final(self).pages@ == old(self).pages@,
            r ==> cache_written(final(self).pages@, old(self).pages@, offset as int, buf@),
    {
        if !self.all_cached(buf.len(), offset) {
            return false;
        }
        let ghost s0 = self.pages@;
        let mut copied: usize = 0;
        while copied < buf.len()
            invariant
                self.wf(),
                self.capacity == old(self).capacity,
                s0 == old(self).pages@,
                pages_ok(s0),
                copied <= buf@.len(),
                offset + buf@.len() <= usize::MAX,
                covered(s0, offset as int, buf@.len() as int),
                forall|j: int| cached(self.pages@, j) <==> cached(s0, j),
                forall|j: int| cached(s0, j) ==> page_of(self.pages@, j) == (
                    page_after_write(page_of(s0, j).0, j, offset as int, buf@.subrange(0, copied as int)),
                    page_of(s0, j).1 || touches(j, offset as int, copied as int)),
            decreases buf@.len() - copied,
        {
            let current = offset + copied;
            let page_index = current / CACHE_PAGE_SIZE;
            let page_offset = current % CACHE_PAGE_SIZE;
            let copy_len = if buf.len() - copied < CACHE_PAGE_SIZE - page_offset { buf.len() - copied } else { CACHE_PAGE_SIZE - page_offset };
            assert(cached(s0, pos_page(current as int)));
            let k = match self.position(page_index) {
                Some(k) => k,
                None => {
                    return true;
                },
            };
            let ghost s = self.pages@;
            proof {
                lemma_page_at(s, k as int);
            }
            let mut frame = copy_range(self.pages[k].frame.as_slice(), 0, CACHE_PAGE_SIZE);
            let chunk = copy_range(buf, copied, copied + copy_len);
            copy_into(&mut frame, page_offset, chunk.as_slice());
            let ghost f = frame@;
            self.replace_at(k, CachedPage { index: page_index, frame, dirty: true });
            proof {
                let pi = page_index as int;
                let d0 = buf@.subrange(0, copied as int);
                let d1 = buf@.subrange(0, copied + copy_len);
                assert(pi * 4096 + page_offset == current) by {
                    assert(current as int == (current as int / 4096) * 4096 + current as int % 4096) by (nonlinear_arith);
                }
                assert forall|j: int| cached(s0, j) implies page_of(self.pages@, j) == (
                    page_after_write(page_of(s0, j).0, j, offset as int, d1),
                    page_of(s0, j).1 || touches(j, offset as int, (copied + copy_len) as int)) by {
                    let p0 = page_of(s0, j).0;
                    assert(p0.len() == 4096) by {
                        let q = choose|q: int| 0 <= q < s0.len() && (#[trigger] s0[q]).index == j;
                        lemma_page_at(s0, q);
                    }
                    if j == pi {
                        assert(page_of(self.pages@, j).0 =~= page_after_write(p0, j, offset as int, d1)) by {
                            assert forall|m: int| 0 <= m < 4096 implies #[trigger] f[m] == page_after_write(p0, j, offset as int, d1)[m] by {
                                assert(s[k as int].frame@ == page_after_write(p0, j, offset as int, d0));
                            }
                        }
                    } else {
                        assert(page_after_write(p0, j, offset as int, d1) =~= page_after_write(p0, j, offset as int, d0)) by {
                            assert forall|m: int| 0 <= m < 4096 implies page_after_write(p0, j, offset as int, d1)[m]
                                == #[trigger] page_after_write(p0, j, offset as int, d0)[m] by {
                                lemma_pos_in_page(j, m);
                                lemma_pos_in_page(pi, page_offset as int);
                            }
                        }
                    }
                }
            }
            copied += copy_len;
        }
        proof {
            assert(buf@.subrange(0, buf@.len() as int) =~= buf@);
        }
        true
    }
}

/// `new` is `old` with `data` written at file position `offset`: the same pages, the bytes
/// replaced and the pages touched dirty.
pub open spec fn cache_written(new: Seq<CachedPage>, old: Seq<CachedPage>, offset: int, data: Seq<u8>) -> bool {
    &&& forall|j: int| cached(new, j) <==> cached(old, j)
    &&& forall|j: int| cached(old, j) ==> page_of(new, j) == (
        page_after_write(page_of(old, j).0, j, offset, data),
        page_of(old, j).1 || touches(j, offset, data.len() as int))
}

/// Copying out of the cache after a write gives the bytes written.
pub proof fn law_cached_write_then_copy(new: Seq<CachedPage>, old: Seq<CachedPage>, offset: int, data: Seq<u8>,
    pos: int, x: u8)
    requires
        pages_ok(old),
        offset >= 0,
        covered(old, offset, data.len() as int),
        cache_written(new, old, offset, data),
        offset <= pos < offset + data.len(),
    ensures
        cache_byte(new, pos, x) == data[pos - offset],
{
    let p = pos_page(pos);
    assert(cached(old, p));
    let q = choose|q: int| 0 <= q < old.len() && (#[trigger] old[q]).index == p;
    lemma_page_at(old, q);
    assert(pos == p * 4096 + pos % 4096) by (nonlinear_arith)
        requires
            p == pos / 4096,
            pos >= 0,
    ;
}

/// The indices of the dirty pages among `s`, in order.
pub open spec fn dirty_indices(s: Seq<CachedPage>) -> Seq<usize>
    decreases s.len(),
{
    if s.len() == 0 {
        Seq::empty()
    } else if s.last().dirty {
        dirty_indices(s.drop_last()).push(s.last().index)
    } else {
        dirty_indices(s.drop_last())
    }
}

/// The dirty pages that the cache lists are exactly its cached dirty pages, in increasing
/// page order.
pub proof fn law_dirty_pages_sorted(s: Seq<CachedPage>)
    requires
        pages_ok(s),
    ensures
        forall|a: int, b: int| 0 <= a < b < dirty_indices(s).len() ==> dirty_indices(s)[a] < dirty_indices(s)[b],
        forall|x: usize| #[trigger] dirty_indices(s).contains(x) <==> (cached(s, x as int) && page_of(s, x as int).1),
    decreases s.len(),
{
    lemma_dirty_indices(s);
    if s.len() > 0 {
        let t = s.drop_last();
        let n = s.len() - 1;
        assert(pages_ok(t)) by {
            assert forall|i: int, j: int| #![trigger t[i], t[j]] 0 <= i < j < t.len() implies t[i].index < t[j].index by {
                assert(t[i] == s[i] && t[j] == s[j]);
            }
            assert forall|i: int| 0 <= i < t.len() implies (#[trigger] t[i]).frame@.len() == CACHE_PAGE_SIZE by {
                assert(t[i] == s[i]);
            }
        }
        law_dirty_pages_sorted(t);
        let d = dirty_indices(t);
        if s.last().dirty {
            assert forall|a: int| 0 <= a < d.len() implies d[a] < s[n].index by {
                assert(d.contains(d[a]));
                let k = choose|k: int| 0 <= k < t.len() && (#[trigger] t[k]).index == d[a] as int;
                assert(t[k] == s[k]);
            }
            assert(dirty_indices(s) == d.push(s.last().index));
        }
    }
}

/// Dropping clean pages twice drops clean pages.
proof fn lemma_clean_dropped_trans(a: Seq<CachedPage>, b: Seq<CachedPage>, c: Seq<CachedPage>)
    requires
        only_clean_dropped(a, b),
        only_clean_dropped(b, c),
    ensures
        only_clean_dropped(a, c),
{
}

/// The same pages with the same bytes; a page may only have turned clean.
pub open spec fn same_pages_but_dirty(new: Seq<CachedPage>, old: Seq<CachedPage>) -> bool {
    &&& forall|j: int| cached(new, j) <==> cached(old, j)
    &&& forall|j: int| cached(old, j) ==> page_of(new, j).0 == page_of(old, j).0 && (page_of(new, j).1 ==> page_of(old, j).1)
}

/// The dirty pages are those that `dirty_indices` lists.
pub proof fn lemma_dirty_indices(s: Seq<CachedPage>)
    requires
        pages_ok(s),
    ensures
        forall|x: usize| #[trigger] dirty_indices(s).contains(x) <==> (cached(s, x as int) && page_of(s, x as int).1),
    decreases s.len(),
{
    if s.len() > 0 {
        let t = s.drop_last();
        assert(pages_ok(t)) by {
            assert forall|i: int, j: int| #![trigger t[i], t[j]] 0 <= i < j < t.len() implies t[i].index < t[j].index by {
                assert(t[i] == s[i] && t[j] == s[j]);
            }
            assert forall|i: int| 0 <= i < t.len() implies (#[trigger] t[i]).frame@.len() == CACHE_PAGE_SIZE by {
                assert(t[i] == s[i]);
            }
        }
        lemma_dirty_indices(t);
        let n = s.len() - 1;
        lemma_page_at(s, n);
        assert forall|x: usize| #[trigger] dirty_indices(s).contains(x) <==> (cached(s, x as int) && page_of(s, x as int).1) by {
            let d = dirty_indices(s);
            let dt = dirty_indices(t);
            let last = s[n];
            assert(forall|k: int| 0 <= k < t.len() ==> (#[trigger] t[k]).index < last.index) by {
                assert forall|k: int| 0 <= k < t.len() implies (#[trigger] t[k]).index < last.index by {
                    assert(t[k] == s[k]);
                }
            }
            if last.dirty {
                assert(d == dt.push(last.index));
            } else {
                assert(d == dt);
            }
            if x == last.index {
                assert(cached(s, x as int));
                assert(!cached(t, x as int));
                if last.dirty {
                    assert(d[dt.len() as int] == x);
                } else {
                    assert(!dt.contains(x));
                }
            } else {
                assert(cached(s, x as int) <==> cached(t, x as int)) by {
                    if cached(s, x as int) {
                        let q = choose|q: int| 0 <= q < s.len() && (#[trigger] s[q]).index == x;
                        assert(q != n);
                        assert(t[q] == s[q]);
                    }
                    if cached(t, x as int) {
                        let q = choose|q: int| 0 <= q < t.len() && (#[trigger] t[q]).index == x;
                        assert(t[q] == s[q]);
                    }
                }
                if cached(t, x as int) {
                    let q = choose|q: int| 0 <= q < t.len() && (#[trigger] t[q]).index == x;
                    assert(t[q] == s[q]);
                    lemma_page_at(t, q);
                    lemma_page_at(s, q);
                }
                assert(d.contains(x) <==> dt.contains(x)) by {
                    if d.contains(x) {
                        let w = choose|w: int| 0 <= w < d.len() && d[w] == x;
                        if last.dirty {
                            assert(w < dt.len());
                            assert(dt[w] == x);
                        } else {
                            assert(dt[w] == x);
                        }
                    }
                    if dt.contains(x) {
                        let w = choose|w: int| 0 <= w < dt.len() && dt[w] == x;
                        assert(d[w] == x);
                    }
                }
            }
        }
    }
}

impl InodePageCache {
    /// Takes the dirty flag of page `page_index`: whether it was dirty, the page now clean;
    /// `None` if the page is not cached.
    pub fn take_dirty(&mut self, page_index: usize) -> (r: Option<bool>)
        requires
            old(self).wf(),
        ensures
            final(self).wf(),
            final(self).capacity == old(self).capacity,
            forall|j: int| cached(final(self).pages@, j) <==> cached(old(self).pages@, j),
            forall|j: int| j != page_index && cached(old(self).pages@, j) ==> page_of(final(self).pages@, j) == page_of(old(self).pages@, j),
            cached(old(self).pages@, page_index as int) ==> r == Some(page_of(old(self).pages@, page_index as int).1)
                && page_of(final(self).pages@, page_index as int) == (page_of(old(self).pages@, page_index as int).0, false),
            !cached(old(self).pages@, page_index as int) ==> r is None && final(self).pages@ == old(self).pages@,
    {
        match self.position(page_index) {
            Some(k) => {
                proof {
                    lemma_page_at(self.pages@, k as int);
                }
                let was = self.pages[k].dirty;
                self.set_dirty_at(k, false);
                Some(was)
            },
            None => None,
        }
    }
}

} // verus!
