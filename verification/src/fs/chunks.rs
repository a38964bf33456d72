//! How a file is cut into cached chunks.
//!
//! The chunks of a file are found by walking from its start: where a page is
//! cached the chunk has the size of the page, elsewhere it is one small page.

use vstd::prelude::*;
use crate::addr::{PAGE_SIZE_2M, PAGE_SIZE_4K, THP_NR_4K_PAGES};
use crate::fs::cache::{pages_ok, CachedFileShared, MAX_OFFSET};
use crate::fs::cached_file::CachedFile;
use crate::fs::page::PageCache;
use crate::fs::recency::{distinct, lemma_lookup_map, lemma_touched, page_map, touched};

verus! {

/// The number of small pages in the chunk that starts at `at`.
pub open spec fn step(m: Map<u32, PageCache>, at: int) -> int {
    if m.dom().contains(at as u32) && m[at as u32].size == PAGE_SIZE_2M {
        THP_NR_4K_PAGES as int
    } else {
        1
    }
}

/// Whether the page that is cached for `at` has the small page `pn` in it.
pub open spec fn covers(m: Map<u32, PageCache>, at: int, pn: int) -> bool {
    m.dom().contains(at as u32) && at <= pn < at + step(m, at)
}

/// The walk for `pn` from the chunk at `at`: the cached chunk that has `pn` in
/// it with its size, or none and the size of a small page.
pub open spec fn chunk_from(m: Map<u32, PageCache>, at: int, pn: int) -> (Option<u32>, usize)
    decreases pn - at + 1,
{
    if at > pn {
        (None, PAGE_SIZE_4K)
    } else if covers(m, at, pn) {
        (Some(at as u32), m[at as u32].size)
    } else {
        chunk_from(m, at + step(m, at), pn)
    }
}

/// The order of the pages after the walk for `pn` from the chunk at `at`.
pub open spec fn chunk_order(s: Seq<(u32, PageCache)>, m: Map<u32, PageCache>, at: int, pn: int) -> Seq<
    (u32, PageCache),
>
    decreases pn - at + 1,
{
    if at > pn {
        s
    } else if covers(m, at, pn) {
        touched(s, at as u32)
    } else {
        chunk_order(touched(s, at as u32), m, at + step(m, at), pn)
    }
}

/// The number of the first small page of the chunk with the byte `offset` in
/// it, by the walk from the chunk at `at`.
pub open spec fn offset_from(m: Map<u32, PageCache>, at: int, offset: int) -> int
    decreases offset - at * PAGE_SIZE_4K,
{
    if at * PAGE_SIZE_4K >= offset || (at + step(m, at)) * PAGE_SIZE_4K > offset {
        at
    } else {
        offset_from(m, at + step(m, at), offset)
    }
}

/// The order of the pages after the walk for the byte `offset` from the chunk
/// at `at`.
pub open spec fn offset_order(s: Seq<(u32, PageCache)>, m: Map<u32, PageCache>, at: int, offset: int) -> Seq<
    (u32, PageCache),
>
    decreases offset - at * PAGE_SIZE_4K,
{
    if at * PAGE_SIZE_4K >= offset {
        s
    } else if (at + step(m, at)) * PAGE_SIZE_4K > offset {
        touched(s, at as u32)
    } else {
        offset_order(touched(s, at as u32), m, at + step(m, at), offset)
    }
}

/// Whether no page is cached for a number inside a cached huge page.
pub open spec fn apart(m: Map<u32, PageCache>) -> bool {
    forall|a: u32, b: u32|
        #![trigger m.dom().contains(a), m.dom().contains(b)]
        m.dom().contains(a) && m.dom().contains(b) && a < b ==> a + step(m, a as int) <= b
}

impl CachedFile {
    /// The cached chunk that has the small page `pn` in it, and its size.
    /// Without one, the size is that of a small page.
    pub fn locate_chunk(&self, shared: &mut CachedFileShared, pn: u32) -> (r: (Option<u32>, usize))
        requires
            old(shared)@.wf(),
            pn + THP_NR_4K_PAGES <= u32::MAX,
        ensures
            final(shared)@.wf(),
            page_map(final(shared)@.pages) == page_map(old(shared)@.pages),
            final(shared)@ == old(shared)@.with_pages(
                chunk_order(old(shared)@.pages, page_map(old(shared)@.pages), 0, pn as int),
            ),
            r == chunk_from(page_map(old(shared)@.pages), 0, pn as int),
    {
        let ghost m = page_map(shared@.pages);
        let mut page_num: u32 = 0;
        while page_num <= pn
            invariant
                shared@.wf(),
                m == page_map(old(shared)@.pages),
                page_map(shared@.pages) == m,
                pn + THP_NR_4K_PAGES <= u32::MAX,
                page_num <= pn + THP_NR_4K_PAGES,
                shared@ == old(shared)@.with_pages(shared@.pages),
                chunk_from(m, page_num as int, pn as int) == chunk_from(m, 0, pn as int),
                chunk_order(shared@.pages, m, page_num as int, pn as int) == chunk_order(
                    old(shared)@.pages,
                    m,
                    0,
                    pn as int,
                ),
            decreases pn + 1 - page_num,
        {
            proof {
                lemma_lookup_map(shared@.pages, page_num);
                assert(m.dom().contains(page_num) ==> m[page_num].wf());
            }
            let mut diff: u32 = 1;
            if let Some(page) = shared.touch(page_num) {
                if page.size() == PAGE_SIZE_2M {
                    if page_num + THP_NR_4K_PAGES > pn {
                        return (Some(page_num), PAGE_SIZE_2M);
                    }
                    diff = THP_NR_4K_PAGES;
                } else if page_num == pn {
                    return (Some(page_num), PAGE_SIZE_4K);
                }
            }
            page_num = page_num + diff;
        }
        (None, PAGE_SIZE_4K)
    }

    /// The chunk that has the byte `offset` in it: the number of its first
    /// small page and the offset of its first byte.
    pub fn locate_offset(&self, shared: &mut CachedFileShared, offset: u64) -> (r: (u32, u64))
        requires
            old(shared)@.wf(),
            offset <= MAX_OFFSET,
        ensures
            final(shared)@.wf(),
            page_map(final(shared)@.pages) == page_map(old(shared)@.pages),
            final(shared)@ == old(shared)@.with_pages(
                offset_order(old(shared)@.pages, page_map(old(shared)@.pages), 0, offset as int),
            ),
            r.0 == offset_from(page_map(old(shared)@.pages), 0, offset as int),
            r.1 == r.0 * PAGE_SIZE_4K,
    {
        let ghost m = page_map(shared@.pages);
        let mut pn: u32 = 0;
        let mut chunk_start: u64 = 0;
        while chunk_start < offset
            invariant_except_break
                offset_order(shared@.pages, m, pn as int, offset as int) == offset_order(
                    old(shared)@.pages,
                    m,
                    0,
                    offset as int,
                ),
            invariant
                shared@.wf(),
                m == page_map(old(shared)@.pages),
                page_map(shared@.pages) == m,
                offset <= MAX_OFFSET,
                chunk_start == pn * PAGE_SIZE_4K,
                chunk_start <= offset,
                shared@ == old(shared)@.with_pages(shared@.pages),
                offset_from(m, pn as int, offset as int) == offset_from(m, 0, offset as int),
            ensures
                shared@.pages == offset_order(old(shared)@.pages, m, 0, offset as int),
                pn == offset_from(m, 0, offset as int),
            decreases offset - chunk_start,
        {
            proof {
                lemma_lookup_map(shared@.pages, pn);
                assert(m.dom().contains(pn) ==> m[pn].wf());
            }
            let size: usize = match shared.touch(pn) {
                Some(page) => page.size(),
                None => PAGE_SIZE_4K,
            };
            let chunk_end: u64 = chunk_start + size as u64;
            if chunk_end > offset {
                break;
            }
            chunk_start = chunk_end;
            pn = pn + (size / PAGE_SIZE_4K) as u32;
        }
        (pn, chunk_start)
    }
}

/// The chunk that the walk for a byte finds has that byte in it.
pub proof fn law_located_chunk_has_the_byte(m: Map<u32, PageCache>, offset: int)
    requires
        0 <= offset,
    ensures
        ({
            let pn = offset_from(m, 0, offset);
            pn * PAGE_SIZE_4K <= offset < (pn + step(m, pn)) * PAGE_SIZE_4K
        }),
{
    lemma_offset_from(m, 0, offset);
}

proof fn lemma_offset_from(m: Map<u32, PageCache>, at: int, offset: int)
    requires
        0 <= at,
        at * PAGE_SIZE_4K <= offset,
    ensures
        at <= offset_from(m, at, offset),
        offset_from(m, at, offset) * PAGE_SIZE_4K <= offset,
        offset < (offset_from(m, at, offset) + step(m, offset_from(m, at, offset))) * PAGE_SIZE_4K,
    decreases offset - at * PAGE_SIZE_4K,
{
    if at * PAGE_SIZE_4K >= offset || (at + step(m, at)) * PAGE_SIZE_4K > offset {
    } else {
        lemma_offset_from(m, at + step(m, at), offset);
    }
}

/// Where no page is cached inside another, the walk for a small page finds the
/// cached page that has it in it, and finds nothing only if there is none.
pub proof fn law_chunk_is_the_cached_one(m: Map<u32, PageCache>, pn: u32)
    requires
        apart(m),
        pages_ok(m),
        pn + THP_NR_4K_PAGES <= u32::MAX,
    ensures
        match chunk_from(m, 0, pn as int).0 {
            Some(at) => covers(m, at as int, pn as int) && chunk_from(m, 0, pn as int).1 == m[at].size,
            None => forall|at: u32| !#[trigger] covers(m, at as int, pn as int),
        },
{
    lemma_chunk_from(m, 0, pn);
}

proof fn lemma_chunk_from(m: Map<u32, PageCache>, at: int, pn: u32)
    requires
        apart(m),
        pages_ok(m),
        0 <= at,
        pn + THP_NR_4K_PAGES <= u32::MAX,
        at <= u32::MAX,
        forall|a: u32| a < at ==> !#[trigger] covers(m, a as int, pn as int),
    ensures
        match chunk_from(m, at, pn as int).0 {
            Some(a) => covers(m, a as int, pn as int) && chunk_from(m, at, pn as int).1 == m[a].size,
            None => forall|a: u32| !#[trigger] covers(m, a as int, pn as int),
        },
    decreases pn - at + 1,
{
    if at > pn {
        assert forall|a: u32| !#[trigger] covers(m, a as int, pn as int) by {
            if a >= at {
                assert(a > pn);
            }
        }
    } else if covers(m, at, pn as int) {
    } else {
        assert forall|a: u32| a < at + step(m, at) implies !#[trigger] covers(
            m,
            a as int,
            pn as int,
        ) by {
            if a >= at {
                if a > at {
                    assert(m.dom().contains(at as u32) && m.dom().contains(a) ==> (at as u32) + step(
                        m,
                        at,
                    ) <= a);
                }
            }
        }
        lemma_chunk_from(m, at + step(m, at), pn);
    }
}

/// The walk for a small page changes the order of the pages alone.
pub proof fn lemma_chunk_order(s: Seq<(u32, PageCache)>, m: Map<u32, PageCache>, at: int, pn: int)
    requires
        distinct(s),
        m == page_map(s),
    ensures
        distinct(chunk_order(s, m, at, pn)),
        page_map(chunk_order(s, m, at, pn)) == m,
        chunk_order(s, m, at, pn).len() == s.len(),
    decreases pn - at + 1,
{
    lemma_touched(s, at as u32);
    if at > pn || covers(m, at, pn) {
    } else {
        lemma_chunk_order(touched(s, at as u32), m, at + step(m, at), pn);
    }
}

} // verus!
