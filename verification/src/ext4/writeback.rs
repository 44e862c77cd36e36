//! Writing an inode's dirty cached pages back to its blocks, in runs of adjacent pages.
use vstd::prelude::*;
use crate::errno::{Errno, SysResult};
use super::ctx::Context;
use super::defs::{INODE_BLOCK_ARRAY_OFF, INODE_BLOCK_ARRAY_SIZE};
use super::data_map::{is_cacheable_file, cacheable, extent_data_error};
use super::file_io::{write_raw_at_locked, write_changed};
use super::page_cache::{CachedPage, cached, page_of, dirty_indices, lemma_dirty_indices, same_pages_but_dirty,
    CACHE_PAGE_SIZE};
use super::vnode::Inode;

verus! {

/// Pages written back together at most.
pub const WRITEBACK_BATCH_PAGES: usize = 4;

/// No cached page is dirty.
pub open spec fn all_clean(s: Seq<CachedPage>) -> bool {
    forall|j: int| cached(s, j) ==> !page_of(s, j).1
}

/// Every dirty page of `s` is listed in `d` from position `from` on.
pub open spec fn dirty_listed(s: Seq<CachedPage>, d: Seq<usize>, from: int) -> bool {
    forall|j: int| cached(s, j) && page_of(s, j).1 ==> exists|k: int| from <= k < d.len() && d[k] == j
}

/// Page `j` is one of those `batch` lists.
pub open spec fn in_batch(batch: Seq<(usize, usize)>, j: int) -> bool {
    exists|k: int| 0 <= k < batch.len() && (#[trigger] batch[k]).0 == j
}

impl Inode {
    /// Marks the pages of `batch` dirty again.
    fn redirty(&mut self, batch: &Vec<(usize, usize)>, Ghost(base): Ghost<Seq<CachedPage>>)
        requires
            old(self).page_cache.wf(),
            same_pages_but_dirty(old(self).page_cache.pages@, base),
            forall|k: int| 0 <= k < batch@.len() ==> cached(base, (#[trigger] batch@[k]).0 as int)
                && page_of(base, batch@[k].0 as int).1,
        ensures
            final(self).page_cache.wf(),
            final(self).page_cache.capacity == old(self).page_cache.capacity,
            same_pages_but_dirty(final(self).page_cache.pages@, base),
            forall|k: int| 0 <= k < batch@.len() ==> page_of(final(self).page_cache.pages@, (#[trigger] batch@[k]).0 as int).1,
            forall|j: int| cached(old(self).page_cache.pages@, j) && !in_batch(batch@, j)
                ==> #[trigger] page_of(final(self).page_cache.pages@, j) == page_of(old(self).page_cache.pages@, j),
            final(self).inode == old(self).inode,
            final(self).deleted == old(self).deleted,
            final(self).metadata_dirty == old(self).metadata_dirty,
            final(self).fsno == old(self).fsno,
    {
        let mut i: usize = 0;
        while i < batch.len()
            invariant
                self.page_cache.wf(),
                self.page_cache.capacity == old(self).page_cache.capacity,
                same_pages_but_dirty(self.page_cache.pages@, base),
                forall|k: int| 0 <= k < i ==> page_of(self.page_cache.pages@, (#[trigger] batch@[k]).0 as int).1,
                forall|j: int| cached(old(self).page_cache.pages@, j) && !in_batch(batch@.take(i as int), j)
                    ==> #[trigger] page_of(self.page_cache.pages@, j) == page_of(old(self).page_cache.pages@, j),
                forall|j: int| cached(self.page_cache.pages@, j) <==> cached(old(self).page_cache.pages@, j),
                forall|k: int| 0 <= k < batch@.len() ==> cached(base, (#[trigger] batch@[k]).0 as int)
                    && page_of(base, batch@[k].0 as int).1,
                i <= batch@.len(),
                self.inode == old(self).inode,
                self.deleted == old(self).deleted,
                self.metadata_dirty == old(self).metadata_dirty,
                self.fsno == old(self).fsno,
            decreases batch@.len() - i,
        {
            let page_index = batch[i].0;
            assert(cached(base, batch@[i as int].0 as int));
            let ghost before = self.page_cache.pages@;
            self.page_cache.mark_dirty(page_index);
            proof {
                let t = batch@.take(i + 1);
                assert forall|j: int| cached(old(self).page_cache.pages@, j) && !in_batch(t, j)
                    implies #[trigger] page_of(self.page_cache.pages@, j) == page_of(old(self).page_cache.pages@, j) by {
                    assert(t[i as int] == batch@[i as int]);
                    assert forall|k: int| 0 <= k < i implies (#[trigger] batch@.take(i as int)[k]).0 != j by {
                        assert(batch@.take(i as int)[k] == t[k]);
                    }
                }
                assert forall|k: int| 0 <= k < i + 1 implies page_of(self.page_cache.pages@, (#[trigger] batch@[k]).0 as int).1 by {
                    if k < i && batch@[k].0 != page_index {
                        assert(cached(before, batch@[k].0 as int));
                    }
                }
            }
            i += 1;
        }
        proof {
            assert(batch@.take(i as int) =~= batch@);
        }
    }

    /// Writes the dirty cached pages of a regular file back to its blocks, up to the file's
    /// size, in runs of at most `WRITEBACK_BATCH_PAGES` adjacent pages; on a failed write the
    /// run's pages are dirty again. A file that does not go through the cache has its cache
    /// emptied.
    #[verifier::rlimit(60)]
    pub fn flush_dirty_pages(&mut self, context: &mut Context) -> (r: SysResult<()>)
        requires
            old(context).wf(),
            old(self).page_cache.wf(),
            old(self).inode.raw@.len() >= INODE_BLOCK_ARRAY_OFF + INODE_BLOCK_ARRAY_SIZE,
        ensures
            final(context).unchanged_but_dev(*old(context)),
            final(self).page_cache.wf(),
            final(self).page_cache.capacity == old(self).page_cache.capacity,
            write_changed(final(self).inode, old(self).inode),
            final(self).inode.raw@.len() == old(self).inode.raw@.len(),
            final(self).deleted == old(self).deleted,
            final(self).metadata_dirty == old(self).metadata_dirty,
            final(self).fsno == old(self).fsno,
            !cacheable(old(self).inode) ==> r is Ok && final(self).page_cache.pages@.len() == 0
                && final(self).inode == old(self).inode && final(context).dev@ == old(context).dev@,
            cacheable(old(self).inode) && old(self).inode.i_size > usize::MAX ==> r == Err::<(), Errno>(Errno::EFBIG)
                && final(self).page_cache.pages@ == old(self).page_cache.pages@,
            cacheable(old(self).inode) ==> same_pages_but_dirty(final(self).page_cache.pages@, old(self).page_cache.pages@),
            cacheable(old(self).inode) && r is Ok ==> all_clean(final(self).page_cache.pages@),
            r is Ok ==> final(self).inode.i_size == old(self).inode.i_size,
            extent_data_error(old(self).inode) is Some ==> final(self).inode == old(self).inode
                && final(context).dev@ == old(context).dev@,
            cacheable(old(self).inode) && old(self).inode.i_size <= usize::MAX && all_clean(old(self).page_cache.pages@)
                ==> r is Ok && *final(context) == *old(context) && final(self).inode == old(self).inode
                && final(self).page_cache.pages@ == old(self).page_cache.pages@,
    {
        if !is_cacheable_file(&self.inode) {
            self.page_cache.clear();
            return Ok(());
        }
        if self.inode.i_size > usize::MAX as u64 {
            return Err(Errno::EFBIG);
        }
        let file_size = self.inode.i_size as usize;
        let ghost base = self.page_cache.pages@;
        let dirty_pages = self.page_cache.dirty_pages();
        proof {
            lemma_dirty_indices(base);
            assert forall|j: int| cached(base, j) && page_of(base, j).1 implies
                exists|k: int| 0 <= k < dirty_pages@.len() && dirty_pages@[k] == j by {
                assert(dirty_indices(base).contains(j as usize));
            }
        }
        proof {
            if all_clean(base) && dirty_pages@.len() > 0 {
                assert(dirty_indices(base).contains(dirty_pages@[0]));
                assert(cached(base, dirty_pages@[0] as int) && page_of(base, dirty_pages@[0] as int).1);
            }
        }
        if dirty_pages.len() == 0 {
            return Ok(());
        }
        proof {
            assert(dirty_indices(base).contains(dirty_pages@[0]));
            assert(cached(base, dirty_pages@[0] as int) && page_of(base, dirty_pages@[0] as int).1);
        }
        let mut index: usize = 0;
        while index < dirty_pages.len()
            invariant
                context.wf(),
                context.unchanged_but_dev(*old(context)),
                cacheable(old(self).inode),
                old(self).inode.i_size <= usize::MAX,
                file_size == old(self).inode.i_size,
                self.page_cache.wf(),
                self.page_cache.capacity == old(self).page_cache.capacity,
                base == old(self).page_cache.pages@,
                !all_clean(base),
                same_pages_but_dirty(self.page_cache.pages@, base),
                dirty_pages@ == dirty_indices(base),
                forall|x: usize| #[trigger] dirty_indices(base).contains(x) <==> (cached(base, x as int) && page_of(base, x as int).1),
                dirty_listed(self.page_cache.pages@, dirty_pages@, index as int),
                index <= dirty_pages@.len(),
                write_changed(self.inode, old(self).inode),
                self.inode.i_size == old(self).inode.i_size,
                extent_data_error(old(self).inode) is Some ==> self.inode == old(self).inode
                    && context.dev@ == old(context).dev@,
                self.inode.raw@.len() == old(self).inode.raw@.len(),
                self.inode.raw@.len() >= INODE_BLOCK_ARRAY_OFF + INODE_BLOCK_ARRAY_SIZE,
                self.deleted == old(self).deleted,
                self.metadata_dirty == old(self).metadata_dirty,
                self.fsno == old(self).fsno,
            decreases dirty_pages@.len() - index,
        {
            let first_page_index = dirty_pages[index];
            let batch_offset = match first_page_index.checked_mul(CACHE_PAGE_SIZE) {
                Some(v) => v,
                None => {
                    return Err(Errno::EFBIG);
                },
            };
            let mut batch: Vec<(usize, usize)> = Vec::new();
            let mut batch_len: usize = 0;
            let mut buffer: Vec<u8> = Vec::new();
            let start = index;
            let mut stop = false;
            while !stop && index < dirty_pages.len() && batch.len() < WRITEBACK_BATCH_PAGES
                invariant
                    context.wf(),
                    context.unchanged_but_dev(*old(context)),
                    cacheable(old(self).inode),
                    old(self).inode.i_size <= usize::MAX,
                    file_size == old(self).inode.i_size,
                    self.page_cache.wf(),
                    self.page_cache.capacity == old(self).page_cache.capacity,
                    same_pages_but_dirty(self.page_cache.pages@, base),
                    !all_clean(base),
                    forall|x: usize| #[trigger] dirty_indices(base).contains(x) <==> (cached(base, x as int) && page_of(base, x as int).1),
                    dirty_pages@ == dirty_indices(base),
                    dirty_listed(self.page_cache.pages@, dirty_pages@, index as int),
                    start <= index <= dirty_pages@.len(),
                    start < dirty_pages@.len(),
                    first_page_index == dirty_pages@[start as int],
                    batch@.len() <= WRITEBACK_BATCH_PAGES,
                    batch@.len() == 0 && !stop ==> index == start,
                    batch@.len() > 0 || stop ==> index > start,
                    base == old(self).page_cache.pages@,
                !all_clean(base),
                    batch_len == buffer@.len(),
                    batch_len <= batch@.len() * CACHE_PAGE_SIZE,
                    batch_len >= batch@.len(),
                    batch_offset == first_page_index * CACHE_PAGE_SIZE,
                    batch@.len() > 0 ==> batch_offset + batch_len <= file_size,
                    forall|k: int| 0 <= k < batch@.len() ==> cached(base, (#[trigger] batch@[k]).0 as int)
                        && page_of(base, batch@[k].0 as int).1,
                    self.inode == old(self).inode || write_changed(self.inode, old(self).inode),
                    self.inode.i_size == old(self).inode.i_size,
                    extent_data_error(old(self).inode) is Some ==> self.inode == old(self).inode
                        && context.dev@ == old(context).dev@,
                    self.inode.raw@.len() == old(self).inode.raw@.len(),
                    self.inode.raw@.len() >= INODE_BLOCK_ARRAY_OFF + INODE_BLOCK_ARRAY_SIZE,
                    self.deleted == old(self).deleted,
                    self.metadata_dirty == old(self).metadata_dirty,
                    self.fsno == old(self).fsno,
                decreases dirty_pages@.len() - index, if stop { 0int } else { 1int },
            {
                let page_index = dirty_pages[index];
                let expected_page_index = match first_page_index.checked_add(batch.len()) {
                    Some(v) => v,
                    None => {
                        return Err(Errno::EFBIG);
                    },
                };
                if page_index != expected_page_index {
                    stop = true;
                } else {
                    let offset = match page_index.checked_mul(CACHE_PAGE_SIZE) {
                        Some(v) => v,
                        None => {
                            return Err(Errno::EFBIG);
                        },
                    };
                    let ghost before = self.page_cache.pages@;
                    proof {
                        assert(dirty_indices(base).contains(page_index)) by {
                            assert(dirty_pages@[index as int] == page_index);
                        }
                    }
                    let frame = self.page_cache.get_frame(page_index);
                    let taken = self.page_cache.take_dirty(page_index);
                    proof {
                        assert forall|j: int| cached(self.page_cache.pages@, j) && page_of(self.page_cache.pages@, j).1 implies
                            exists|k: int| index + 1 <= k < dirty_pages@.len() && dirty_pages@[k] == j by {
                            assert(j != page_index);
                            assert(page_of(before, j).1);
                            let k = choose|k: int| index <= k < dirty_pages@.len() && dirty_pages@[k] == j;
                            assert(k != index);
                        }
                    }
                    match (frame, taken) {
                        (Some(frame), Some(true)) => {
                            if offset >= file_size {
                                if batch.len() == 0 {
                                    index += 1;
                                }
                                stop = true;
                            } else {
                                let len = if file_size - offset < CACHE_PAGE_SIZE { file_size - offset } else { CACHE_PAGE_SIZE };
                                proof {
                                    assert(frame@.len() == CACHE_PAGE_SIZE);
                                }
                                let mut part = crate::bytes::copy_range(frame.as_slice(), 0, len);
                                buffer.append(&mut part);
                                batch_len = batch_len + len;
                                batch.push((page_index, len));
                                index += 1;
                            }
                        },
                        _ => {
                            if batch.len() == 0 {
                                index += 1;
                            }
                            stop = true;
                        },
                    }
                }
            }
            if batch.len() > 0 {
                let write_result = write_raw_at_locked(context, &mut self.inode, buffer.as_slice(), batch_offset);
                match write_result {
                    Ok(written) => {
                        if written != batch_len {
                            self.redirty(&batch, Ghost(base));
                            return Err(Errno::EIO);
                        }
                    },
                    Err(err) => {
                        self.redirty(&batch, Ghost(base));
                        return Err(err);
                    },
                }
            }
        }
        proof {
            assert forall|j: int| cached(self.page_cache.pages@, j) implies !page_of(self.page_cache.pages@, j).1 by {
                if page_of(self.page_cache.pages@, j).1 {
                    let k = choose|k: int| dirty_pages@.len() <= k < dirty_pages@.len() && dirty_pages@[k] == j;
                }
            }
        }
        Ok(())
    }
}

} // verus!
