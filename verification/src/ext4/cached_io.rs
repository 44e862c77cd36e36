//! Reads and writes of an open regular file through its page cache.
use vstd::prelude::*;
use crate::errno::{Errno, SysResult};
use crate::bytes::{copy_into, copy_range, fill_zero};
use super::ctx::Context;
use super::defs::{Ext4Inode, has_bits, INODE_FLAG_EXTENTS, INODE_FLAG_INLINE_DATA, INODE_BLOCK_ARRAY_OFF, INODE_BLOCK_ARRAY_SIZE};
use super::data_map::{is_cacheable_file, cacheable, regular_write_end, validate_regular_write};
use super::extent_map::valid_extents;
use super::file_io::{file_byte, read_len, extent_read_ok, read_raw_at_locked, write_raw_at_locked, write_changed};
use super::page_cache::{CachedPage, cached, page_of, pos_page, touches, page_after_write, lemma_pos_in_page,
    lemma_chunk_in_page, covered, CACHE_PAGE_SIZE, INODE_PAGE_CACHE_CAPACITY};
use super::writeback::all_clean;
use super::tree::snapshot_spec;
use super::vnode::Inode;

verus! {

/// Byte `b` is what the file holds at `pos`, as far as its extents can be read and are valid.
pub open spec fn file_view(c: Context, i: Ext4Inode, pos: int, b: u8) -> bool {
    has_bits(i.i_flags, INODE_FLAG_EXTENTS) ==> (snapshot_spec(c, i.ino, i) matches Ok(s)
        && (valid_extents(s.1) ==> file_byte(c, s.1, pos) == Some(b)))
}

/// Dirty pages are kept as they were and no page turned dirty: the cache may only have
/// gained or lost clean pages.
pub open spec fn cache_kept(new: Seq<CachedPage>, old: Seq<CachedPage>) -> bool {
    &&& forall|j: int| cached(old, j) && page_of(old, j).1 ==> cached(new, j) && page_of(new, j) == page_of(old, j)
    &&& forall|j: int| cached(new, j) && page_of(new, j).1 ==> cached(old, j) && page_of(new, j) == page_of(old, j)
}

proof fn lemma_cache_kept_trans(a: Seq<CachedPage>, b: Seq<CachedPage>, c: Seq<CachedPage>)
    requires
        cache_kept(a, b),
        cache_kept(b, c),
    ensures
        cache_kept(a, c),
{
}

/// Every byte of `data` written at file position `offset` is in the cache, in a dirty page.
pub open spec fn written_into(s: Seq<CachedPage>, offset: int, data: Seq<u8>) -> bool {
    forall|pos: int| offset <= pos < offset + data.len() ==> {
        &&& #[trigger] cached(s, pos_page(pos))
        &&& page_of(s, pos_page(pos)).1
        &&& page_of(s, pos_page(pos)).0[pos % 4096] == data[pos - offset]
    }
}

/// Outside the pages that positions `offset..offset + n` touch, dirty pages are kept as they
/// were and no page turned dirty.
pub open spec fn kept_outside(new: Seq<CachedPage>, old: Seq<CachedPage>, offset: int, n: int) -> bool {
    &&& forall|j: int| !touches(j, offset, n) && cached(old, j) && page_of(old, j).1
        ==> cached(new, j) && page_of(new, j) == page_of(old, j)
    &&& forall|j: int| !touches(j, offset, n) && cached(new, j) && page_of(new, j).1
        ==> cached(old, j) && page_of(new, j) == page_of(old, j)
}

/// The `n` bytes `out` read at `offset` through a cache holding `s`: a byte of a dirty page is
/// the page's, a byte of a page not cached is the file's.
pub open spec fn cached_read_result(s: Seq<CachedPage>, c: Context, i: Ext4Inode, offset: int, out: Seq<u8>, n: int) -> bool {
    forall|k: int| 0 <= k < n ==> ({
        let pos = offset + k;
        let p = pos_page(pos);
        &&& cached(s, p) && page_of(s, p).1 ==> #[trigger] out[k] == page_of(s, p).0[pos % 4096]
        &&& !cached(s, p) ==> file_view(c, i, pos, out[k])
    })
}

/// A read through the cache gives back the bytes a write through the cache put there.
pub proof fn law_cached_read_after_write(s: Seq<CachedPage>, c: Context, i: Ext4Inode, offset: int,
    data: Seq<u8>, out: Seq<u8>, n: int)
    requires
        offset >= 0,
        written_into(s, offset, data),
        cached_read_result(s, c, i, offset, out, n),
    ensures
        forall|k: int| 0 <= k < n && k < data.len() ==> #[trigger] out[k] == data[k],
{
    assert forall|k: int| 0 <= k < n && k < data.len() implies #[trigger] out[k] == data[k] by {
        let pos = offset + k;
        assert(cached(s, pos_page(pos)));
    }
}

impl Inode {
    /// The page cache is ordered and has its capacity.
    pub open spec fn cache_wf(&self) -> bool {
        self.page_cache.wf() && self.page_cache.capacity == INODE_PAGE_CACHE_CAPACITY
    }

    /// Page `file_page_index` of a file of `file_size` bytes as the cache holds it, else read
    /// from the file (zero past its end) and cached clean; a page at or past the end is
    /// `EINVAL`.
    pub fn load_page_to_cache(&mut self, context: &Context, file_page_index: usize, file_size: usize)
        -> (r: SysResult<Vec<u8>>)
        requires
            context.wf(),
            old(self).cache_wf(),
            old(self).inode.raw@.len() >= INODE_BLOCK_ARRAY_OFF + INODE_BLOCK_ARRAY_SIZE,
        ensures
            final(self).cache_wf(),
            final(self).inode == old(self).inode,
            final(self).fsno == old(self).fsno,
            final(self).deleted == old(self).deleted,
            final(self).metadata_dirty == old(self).metadata_dirty,
            cache_kept(final(self).page_cache.pages@, old(self).page_cache.pages@),
            forall|j: int| j != file_page_index && cached(final(self).page_cache.pages@, j) ==> cached(old(self).page_cache.pages@, j),
            cached(old(self).page_cache.pages@, file_page_index as int) ==> (r matches Ok(f)
                && f@ == page_of(old(self).page_cache.pages@, file_page_index as int).0
                && final(self).page_cache.pages@ == old(self).page_cache.pages@),
            !cached(old(self).page_cache.pages@, file_page_index as int) && file_page_index * CACHE_PAGE_SIZE > usize::MAX
                ==> r == Err::<Vec<u8>, Errno>(Errno::EFBIG),
            !cached(old(self).page_cache.pages@, file_page_index as int) && file_page_index * CACHE_PAGE_SIZE <= usize::MAX
                && file_page_index * CACHE_PAGE_SIZE >= file_size ==> r == Err::<Vec<u8>, Errno>(Errno::EINVAL),
            r matches Ok(f) ==> f@.len() == CACHE_PAGE_SIZE && cached(final(self).page_cache.pages@, file_page_index as int)
                && page_of(final(self).page_cache.pages@, file_page_index as int).0 == f@,
            r matches Ok(f) ==> (!cached(old(self).page_cache.pages@, file_page_index as int) ==> ({
                let start = file_page_index * CACHE_PAGE_SIZE;
                &&& !page_of(final(self).page_cache.pages@, file_page_index as int).1
                &&& forall|k: int| 0 <= k < CACHE_PAGE_SIZE && start + k >= file_size ==> #[trigger] f@[k] == 0
                &&& file_size <= old(self).inode.i_size <= usize::MAX ==> forall|k: int| 0 <= k < CACHE_PAGE_SIZE && start + k < file_size
                    ==> file_view(*context, old(self).inode, start + k, #[trigger] f@[k])
            })),
    {
        match self.page_cache.get_frame(file_page_index) {
            Some(frame) => {
                return Ok(frame);
            },
            None => {},
        }
        let page_offset = match file_page_index.checked_mul(CACHE_PAGE_SIZE) {
            Some(v) => v,
            None => {
                return Err(Errno::EFBIG);
            },
        };
        if page_offset >= file_size {
            return Err(Errno::EINVAL);
        }
        let len = if file_size - page_offset < CACHE_PAGE_SIZE { file_size - page_offset } else { CACHE_PAGE_SIZE };
        let mut part: Vec<u8> = vec![0u8; len];
        let read = read_raw_at_locked(context, &self.inode, &mut part, page_offset)?;
        let ghost got = part@;
        if read < len {
            fill_zero(&mut part, read, len);
        }
        let mut frame: Vec<u8> = vec![0u8; CACHE_PAGE_SIZE];
        copy_into(&mut frame, 0, part.as_slice());
        let ghost f = frame@;
        proof {
            assert forall|k: int| 0 <= k < CACHE_PAGE_SIZE && page_offset + k >= file_size implies #[trigger] f[k] == 0 by {
                assert(k >= len);
            }
            if file_size <= self.inode.i_size <= usize::MAX {
                assert(read == len);
                assert forall|k: int| 0 <= k < CACHE_PAGE_SIZE && page_offset + k < file_size
                    implies file_view(*context, self.inode, page_offset + k, #[trigger] f[k]) by {
                    assert(k < len);
                    assert(f[k] == got[k]);
                }
            }
        }
        let ghost before = self.page_cache.pages@;
        let cached_frame = self.page_cache.insert_frame(file_page_index, frame);
        Ok(cached_frame)
    }
}

impl Inode {
    /// Reads up to `buf.len()` bytes at `offset`; a deleted inode is `EIO`. A regular file is
    /// read through its page cache (pages not cached are read in and cached clean); a direct
    /// read first writes the dirty pages back, and a direct read, like one of any other file,
    /// reads the blocks (see `read_raw_at_locked`).
    #[verifier::rlimit(60)]
    pub fn readat(&mut self, context: &mut Context, buf: &mut Vec<u8>, offset: usize, direct: bool) -> (r: SysResult<usize>)
        requires
            old(context).wf(),
            old(self).cache_wf(),
            old(self).inode.raw@.len() >= INODE_BLOCK_ARRAY_OFF + INODE_BLOCK_ARRAY_SIZE,
        ensures
            final(buf)@.len() == old(buf)@.len(),
            final(context).unchanged_but_dev(*old(context)),
            final(self).cache_wf(),
            final(self).fsno == old(self).fsno,
            final(self).deleted == old(self).deleted,
            final(self).metadata_dirty == old(self).metadata_dirty,
            old(buf)@.len() == 0 ==> r == Ok::<usize, Errno>(0),
            old(buf)@.len() > 0 && old(self).deleted ==> r == Err::<usize, Errno>(Errno::EIO),
            !direct ==> final(self).inode == old(self).inode && final(context).dev@ == old(context).dev@
                && cache_kept(final(self).page_cache.pages@, old(self).page_cache.pages@),
            !direct && cacheable(old(self).inode) && old(self).inode.i_size > usize::MAX && old(buf)@.len() > 0
                && !old(self).deleted ==> r == Err::<usize, Errno>(Errno::EFBIG),
            r matches Ok(n) ==> n == read_len(final(self).inode.i_size as usize, offset, old(buf)@.len() as int),
            r matches Ok(n) ==> (!direct && !cacheable(old(self).inode) ==> forall|i: int| 0 <= i < n
                ==> file_view(*old(context), old(self).inode, offset + i, #[trigger] final(buf)@[i])),
            r matches Ok(n) ==> (!direct && cacheable(old(self).inode) ==> cached_read_result(old(self).page_cache.pages@,
                *old(context), old(self).inode, offset as int, final(buf)@, n as int)),
            !direct && !cacheable(old(self).inode) && !old(self).deleted && old(buf)@.len() > 0 ==> ({
                let n = read_len(old(self).inode.i_size as usize, offset, old(buf)@.len() as int);
                &&& n == 0 ==> r == Ok::<usize, Errno>(0)
                &&& n > 0 && has_bits(old(self).inode.i_flags, INODE_FLAG_INLINE_DATA) ==> r == Err::<usize, Errno>(Errno::EOPNOTSUPP)
                &&& n > 0 && !has_bits(old(self).inode.i_flags, INODE_FLAG_INLINE_DATA)
                    && has_bits(old(self).inode.i_flags, INODE_FLAG_EXTENTS)
                    && extent_read_ok(*old(context), old(self).inode, offset as int, n) ==> r is Ok
            }),
    {
        if buf.len() == 0 {
            return Ok(0);
        }
        if self.deleted {
            return Err(Errno::EIO);
        }
        if direct {
            self.flush_dirty_pages(context)?;
        }
        if direct || !is_cacheable_file(&self.inode) {
            return read_raw_at_locked(context, &self.inode, buf, offset);
        }
        if self.inode.i_size > usize::MAX as u64 {
            return Err(Errno::EFBIG);
        }
        let file_size = self.inode.i_size as usize;
        if offset >= file_size {
            return Ok(0);
        }
        let to_read = if buf.len() < file_size - offset { buf.len() } else { file_size - offset };
        let ghost base = self.page_cache.pages@;
        let ghost ctx0 = *context;
        let mut read: usize = 0;
        while read < to_read
            invariant
                context.wf(),
                *context == ctx0,
                ctx0 == *old(context),
                self.cache_wf(),
                self.inode == old(self).inode,
                self.fsno == old(self).fsno,
                self.deleted == old(self).deleted,
                self.metadata_dirty == old(self).metadata_dirty,
                self.inode.raw@.len() >= INODE_BLOCK_ARRAY_OFF + INODE_BLOCK_ARRAY_SIZE,
                base == old(self).page_cache.pages@,
                cacheable(old(self).inode),
                file_size == self.inode.i_size,
                self.inode.i_size <= usize::MAX,
                offset < file_size,
                to_read == read_len(file_size, offset, old(buf)@.len() as int),
                read <= to_read,
                buf@.len() == old(buf)@.len(),
                cache_kept(self.page_cache.pages@, base),
                forall|j: int| cached(self.page_cache.pages@, j) && !cached(base, j) ==> read > 0 && j * 4096 < offset + read,
                read > 0 && read < to_read ==> (offset + read) % 4096 == 0,
                !old(self).deleted,
                old(buf)@.len() > 0,
                forall|i: int| 0 <= i < read ==> ({
                    let pos = offset + i;
                    let p = pos_page(pos);
                    &&& cached(base, p) && page_of(base, p).1 ==> #[trigger] buf@[i] == page_of(base, p).0[pos % 4096]
                    &&& !cached(base, p) ==> file_view(ctx0, self.inode, pos, buf@[i])
                }),
            decreases to_read - read,
        {
            let current = offset + read;
            let page_index = current / CACHE_PAGE_SIZE;
            let page_offset = current % CACHE_PAGE_SIZE;
            let copy_len = if to_read - read < CACHE_PAGE_SIZE - page_offset { to_read - read } else { CACHE_PAGE_SIZE - page_offset };
            let ghost before = self.page_cache.pages@;
            let frame = match self.page_cache.get_frame(page_index) {
                Some(f) => f,
                None => self.load_page_to_cache(context, page_index, file_size)?,
            };
            proof {
                assert(page_index * 4096 <= current);
                assert(page_index * 4096 + page_offset == current) by (nonlinear_arith)
                    requires
                        page_index == current / 4096,
                        page_offset == current % 4096,
                ;
                lemma_cache_kept_trans(self.page_cache.pages@, before, base);
            }
            let piece = copy_range(frame.as_slice(), page_offset, page_offset + copy_len);
            let ghost b0 = buf@;
            copy_into(buf, read, piece.as_slice());
            proof {
                assert forall|i: int| 0 <= i < read + copy_len implies ({
                    let pos = offset + i;
                    let p = pos_page(pos);
                    &&& cached(base, p) && page_of(base, p).1 ==> #[trigger] buf@[i] == page_of(base, p).0[pos % 4096]
                    &&& !cached(base, p) ==> file_view(ctx0, self.inode, pos, buf@[i])
                }) by {
                    if i < read {
                        assert(buf@[i] == b0[i]);
                    } else {
                        let t = i - read;
                        super::page_cache::lemma_chunk_in_page(current as int, t, page_offset as int, page_index as int);
                        assert(buf@[i] == piece@[t]);
                        assert(piece@[t] == frame@[page_offset + t]);
                        if cached(base, page_index as int) && page_of(base, page_index as int).1 {
                            assert(cached(before, page_index as int));
                        }
                        if !cached(base, page_index as int) {
                            assert(!cached(before, page_index as int));
                        }
                    }
                }
                assert forall|j: int| cached(self.page_cache.pages@, j) && !cached(base, j) implies read + copy_len > 0 && j * 4096 < offset + read + copy_len by {
                    if !cached(before, j) {
                        assert(j == page_index);
                    }
                }
            }
            read += copy_len;
        }
        Ok(read)
    }
}

/// Positions `current..current + n` lie in the page that holds `current`.
proof fn lemma_chunk_page(current: int, n: int)
    requires
        current >= 0,
        current % 4096 + n <= 4096,
    ensures
        forall|pos: int| current <= pos < current + n ==> #[trigger] pos_page(pos) == current / 4096
            && pos % 4096 == current % 4096 + (pos - current),
{
    assert forall|pos: int| current <= pos < current + n implies #[trigger] pos_page(pos) == current / 4096
        && pos % 4096 == current % 4096 + (pos - current) by {
        lemma_chunk_in_page(current, pos - current, current % 4096, current / 4096);
    }
}

/// A page that positions `offset..offset + n` do not touch holds none of them.
proof fn lemma_untouched(j: int, offset: int, n: int, pos: int)
    requires
        !touches(j, offset, n),
        offset <= pos < offset + n,
        pos >= 0,
    ensures
        pos_page(pos) != j,
{
    if pos_page(pos) == j {
        assert(j * 4096 <= pos < j * 4096 + 4096) by (nonlinear_arith)
            requires
                j == pos / 4096,
                pos >= 0,
        ;
    }
}

impl Inode {
    /// Writes `chunk`, which lies within one page, at file position `current` into the page
    /// cache: the page is taken from the cache, else read in (when it holds bytes of the first
    /// `old_size` and is not overwritten whole), else started as zeros; it is left dirty.
    fn cache_write_chunk(&mut self, context: &Context, chunk: &[u8], current: usize, old_size: usize) -> (r: SysResult<()>)
        requires
            context.wf(),
            old(self).cache_wf(),
            old(self).inode.raw@.len() >= INODE_BLOCK_ARRAY_OFF + INODE_BLOCK_ARRAY_SIZE,
            chunk@.len() > 0,
            current % 4096 + chunk@.len() <= 4096,
            current + chunk@.len() <= usize::MAX,
        ensures
            final(self).cache_wf(),
            final(self).inode == old(self).inode,
            final(self).fsno == old(self).fsno,
            final(self).deleted == old(self).deleted,
            final(self).metadata_dirty == old(self).metadata_dirty,
            forall|j: int| j != current / 4096 && cached(old(self).page_cache.pages@, j) && page_of(old(self).page_cache.pages@, j).1
                ==> cached(final(self).page_cache.pages@, j) && page_of(final(self).page_cache.pages@, j) == page_of(old(self).page_cache.pages@, j),
            forall|j: int| j != current / 4096 && cached(final(self).page_cache.pages@, j) && page_of(final(self).page_cache.pages@, j).1
                ==> cached(old(self).page_cache.pages@, j) && page_of(final(self).page_cache.pages@, j) == page_of(old(self).page_cache.pages@, j),
            r is Ok ==> {
                let p = current as int / 4096;
                &&& cached(final(self).page_cache.pages@, p)
                &&& page_of(final(self).page_cache.pages@, p).1
                &&& forall|k: int| 0 <= k < chunk@.len() ==> #[trigger] page_of(final(self).page_cache.pages@, p).0[current % 4096 + k] == chunk@[k]
            },
            r is Err ==> !cached(old(self).page_cache.pages@, current as int / 4096)
                && (current as int / 4096) * 4096 < old_size && chunk@.len() != 4096,
    {
        let page_index = current / CACHE_PAGE_SIZE;
        proof {
            assert(page_index * 4096 <= current) by (nonlinear_arith)
                requires
                    page_index == current / 4096,
            ;
        }
        let page_start = match page_index.checked_mul(CACHE_PAGE_SIZE) {
            Some(v) => v,
            None => {
                return Err(Errno::EFBIG);
            },
        };
        let present = self.page_cache.get_frame(page_index).is_some();
        if present {
        } else if page_start < old_size && chunk.len() != CACHE_PAGE_SIZE {
            let _frame = self.load_page_to_cache(context, page_index, old_size)?;
        } else {
            let zero: Vec<u8> = vec![0u8; CACHE_PAGE_SIZE];
            let _frame = self.page_cache.insert_frame(page_index, zero);
        }
        let ghost s1 = self.page_cache.pages@;
        proof {
            lemma_chunk_page(current as int, chunk@.len() as int);
            assert forall|pos: int| current <= pos < current + chunk@.len() implies #[trigger] cached(s1, pos_page(pos)) by {}
        }
        let ok = self.page_cache.write_if_cached(chunk, current);
        proof {
            let s2 = self.page_cache.pages@;
            assert(ok);
            assert forall|j: int| j != page_index && cached(s1, j) implies page_of(s2, j) == page_of(s1, j) by {
                let p1 = page_of(s1, j).0;
                assert(p1.len() == 4096) by {
                    let q = choose|q: int| 0 <= q < s1.len() && (#[trigger] s1[q]).index == j;
                    super::page_cache::lemma_page_at(s1, q);
                }
                assert(page_after_write(p1, j, current as int, chunk@) =~= p1) by {
                    assert forall|m: int| 0 <= m < 4096 implies #[trigger] page_after_write(p1, j, current as int, chunk@)[m] == p1[m] by {
                        lemma_pos_in_page(j, m);
                    }
                }
                if touches(j, current as int, chunk@.len() as int) {
                    let pos = if j * 4096 > current { j * 4096 } else { current as int };
                    lemma_pos_in_page(j, pos - j * 4096);
                }
            }
            assert forall|k: int| 0 <= k < chunk@.len() implies #[trigger] page_of(s2, page_index as int).0[current % 4096 + k] == chunk@[k] by {
                let m = current % 4096 + k;
                assert(page_index * 4096 + m == current + k) by (nonlinear_arith)
                    requires
                        page_index == current / 4096,
                        m == current % 4096 + k,
                ;
            }
        }
        Ok(())
    }

    /// Writes `buf` at `offset`; a deleted inode is `EIO`. A regular file is written into its
    /// page cache, the pages touched left dirty for a later write-back and the size extended;
    /// other files are written to their blocks (see `write_raw_at_locked`).
    #[verifier::rlimit(60)]
    #[verifier::spinoff_prover]
    pub fn writeat(&mut self, context: &mut Context, buf: &[u8], offset: usize) -> (r: SysResult<usize>)
        requires
            old(context).wf(),
            old(self).cache_wf(),
            old(self).inode.raw@.len() >= INODE_BLOCK_ARRAY_OFF + INODE_BLOCK_ARRAY_SIZE,
        ensures
            final(context).unchanged_but_dev(*old(context)),
            final(self).cache_wf(),
            final(self).fsno == old(self).fsno,
            final(self).deleted == old(self).deleted,
            write_changed(final(self).inode, old(self).inode),
            final(self).inode.raw@.len() == old(self).inode.raw@.len(),
            buf@.len() == 0 ==> r == Ok::<usize, Errno>(0),
            buf@.len() > 0 && old(self).deleted ==> r == Err::<usize, Errno>(Errno::EIO),
            r matches Ok(n) ==> n == buf@.len(),
            buf@.len() > 0 && !old(self).deleted && cacheable(old(self).inode) ==> {
                let end = offset + buf@.len();
                &&& final(context).dev@ == old(context).dev@
                &&& regular_write_end(old(self).inode, offset as int, buf@.len() as int) is Ok
                    && old(self).inode.i_size <= usize::MAX
                    && (offset % 4096 == 0 && buf@.len() % 4096 == 0 || (offset as int / 4096) * 4096 >= old(self).inode.i_size)
                    ==> r is Ok
                &&& regular_write_end(old(self).inode, offset as int, buf@.len() as int) is Err ==>
                    r == Err::<usize, Errno>(regular_write_end(old(self).inode, offset as int, buf@.len() as int)->Err_0)
                    && final(self).inode == old(self).inode
                &&& regular_write_end(old(self).inode, offset as int, buf@.len() as int) is Ok && old(self).inode.i_size > usize::MAX
                    ==> r == Err::<usize, Errno>(Errno::EFBIG) && final(self).inode == old(self).inode
                &&& r is Ok ==> {
                    &&& final(self).inode == (Ext4Inode { i_size: if end > old(self).inode.i_size { end as u64 } else { old(self).inode.i_size }, ..old(self).inode })
                    &&& final(self).metadata_dirty == (old(self).metadata_dirty || end > old(self).inode.i_size)
                    &&& written_into(final(self).page_cache.pages@, offset as int, buf@)
                    &&& kept_outside(final(self).page_cache.pages@, old(self).page_cache.pages@, offset as int, buf@.len() as int)
                }
            },
    {
        if buf.len() == 0 {
            return Ok(0);
        }
        if self.deleted {
            return Err(Errno::EIO);
        }
        if !is_cacheable_file(&self.inode) {
            return write_raw_at_locked(context, &mut self.inode, buf, offset);
        }
        let end = validate_regular_write(&self.inode, offset, buf.len())?;
        if self.inode.i_size > usize::MAX as u64 {
            return Err(Errno::EFBIG);
        }
        let old_size = self.inode.i_size as usize;
        let ghost base = self.page_cache.pages@;
        let ghost inode0 = self.inode;
        let mut written: usize = 0;
        proof {
            assert(buf@.subrange(0, 0) =~= Seq::<u8>::empty());
        }
        while written < buf.len()
            invariant
                context.wf(),
                *context == *old(context),
                self.cache_wf(),
                self.fsno == old(self).fsno,
                self.deleted == old(self).deleted,
                !old(self).deleted,
                self.metadata_dirty == old(self).metadata_dirty,
                inode0 == old(self).inode,
                inode0.raw@.len() >= INODE_BLOCK_ARRAY_OFF + INODE_BLOCK_ARRAY_SIZE,
                regular_write_end(inode0, offset as int, buf@.len() as int) == Ok::<usize, Errno>(end),
                inode0.i_size <= usize::MAX,
                cacheable(inode0),
                old_size == inode0.i_size,
                end == offset + buf@.len(),
                end <= usize::MAX,
                written <= buf@.len(),
                buf@.len() > 0,
                written > 0 && written < buf@.len() ==> (offset + written) % 4096 == 0,
                self.inode == (Ext4Inode { i_size: if written > 0 && offset + written > old_size { (offset + written) as u64 } else { old_size as u64 }, ..inode0 }),
                base == old(self).page_cache.pages@,
                written_into(self.page_cache.pages@, offset as int, buf@.subrange(0, written as int)),
                kept_outside(self.page_cache.pages@, base, offset as int, written as int),
                offset % 4096 == 0 && buf@.len() % 4096 == 0 ==> written % 4096 == 0,
            decreases buf@.len() - written,
        {
            let current = offset + written;
            let page_offset = current % CACHE_PAGE_SIZE;
            let copy_len = if buf.len() - written < CACHE_PAGE_SIZE - page_offset { buf.len() - written } else { CACHE_PAGE_SIZE - page_offset };
            let new_size = current + copy_len;
            let ghost s0 = self.page_cache.pages@;
            let chunk = copy_range(buf, written, written + copy_len);
            proof {
                if offset % 4096 == 0 && buf@.len() % 4096 == 0 {
                    assert(current % 4096 == 0) by (nonlinear_arith)
                        requires
                            offset % 4096 == 0,
                            written % 4096 == 0,
                            current == offset + written,
                    {
                    }
                    assert(buf@.len() - written >= 4096) by (nonlinear_arith)
                        requires
                            buf@.len() % 4096 == 0,
                            written % 4096 == 0,
                            written < buf@.len(),
                    {
                    }
                }
                if (offset as int / 4096) * 4096 >= old_size {
                    assert((current as int / 4096) * 4096 >= (offset as int / 4096) * 4096) by (nonlinear_arith)
                        requires
                            current >= offset,
                    {
                        vstd::arithmetic::div_mod::lemma_div_is_ordered(offset as int, current as int, 4096);
                    }
                }
            }
            self.cache_write_chunk(context, chunk.as_slice(), current, old_size)?;
            if new_size > old_size {
                if (self.inode.i_size as usize) < new_size {
                    self.inode.i_size = new_size as u64;
                }
            }
            proof {
                let s2 = self.page_cache.pages@;
                let p = current as int / 4096;
                let d0 = buf@.subrange(0, written as int);
                let d1 = buf@.subrange(0, written + copy_len);
                lemma_chunk_page(current as int, copy_len as int);
                assert forall|pos: int| offset <= pos < offset + d1.len() implies {
                    &&& #[trigger] cached(s2, pos_page(pos))
                    &&& page_of(s2, pos_page(pos)).1
                    &&& page_of(s2, pos_page(pos)).0[pos % 4096] == d1[pos - offset]
                } by {
                    if pos < current {
                        assert(cached(s0, pos_page(pos)));
                        assert(pos_page(pos) < p) by (nonlinear_arith)
                            requires
                                pos < current,
                                current % 4096 == 0,
                                p == current / 4096,
                                pos >= 0,
                        ;
                        assert(d1[pos - offset] == d0[pos - offset]);
                    } else {
                        assert(page_of(s2, p).0[current % 4096 + (pos - current)] == chunk@[pos - current]);
                        assert(d1[pos - offset] == chunk@[pos - current]);
                    }
                }
                assert(written_into(s2, offset as int, d1));
                assert forall|j: int| !touches(j, offset as int, (written + copy_len) as int) && cached(base, j) && page_of(base, j).1
                    implies cached(s2, j) && page_of(s2, j) == page_of(base, j) by {
                    lemma_untouched(j, offset as int, (written + copy_len) as int, current as int);
                }
                assert forall|j: int| !touches(j, offset as int, (written + copy_len) as int) && cached(s2, j) && page_of(s2, j).1
                    implies cached(base, j) && page_of(s2, j) == page_of(base, j) by {
                    lemma_untouched(j, offset as int, (written + copy_len) as int, current as int);
                }
            }
            written += copy_len;
        }
        if end > old_size {
            self.metadata_dirty = true;
        }
        proof {
            assert(buf@.subrange(0, buf@.len() as int) =~= buf@);
        }
        Ok(written)
    }
}

} // verus!
