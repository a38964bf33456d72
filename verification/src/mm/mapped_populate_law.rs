//! A mapping of a file or of shared memory shows the pages of its cache.

use vstd::prelude::*;
use crate::addr::{PageSize, PAGE_SIZE_2M, PAGE_SIZE_4K, THP_NR_4K_PAGES};
use crate::effect::{Reply, Request, Turn};
use crate::flags::MappingFlags;
use crate::fs::cache::CacheView;
use crate::fs::cached_file::CachedFile;
use crate::fs::chunks::{chunk_from, chunk_order, covers, lemma_chunk_order, step};
use crate::fs::fetch::{FetchState, FetchStep, PageFetch};
use crate::fs::page::{is_cache_page_size, PageCache};
use crate::fs::recency::{
    has_key, lemma_drop_last, lemma_lookup_map, lemma_placed, lemma_pushed, lemma_touched, page_map,
};
use crate::mm::file::FileBackendInner;
use crate::mm::file_populate::{lemma_chunk_covers, FilePopulateState, FilePopulateView};
use crate::mm::shared::{in_mapping, page_number};
use crate::mm::shared_populate::{fits_whole, PopulateState, SharedPopulate};

verus! {

/// Whether a request to map a page asks for the memory of the cached page that
/// has the small page `pn` in it.
pub open spec fn maps_cached(m: Map<u32, PageCache>, pn: int, request: Request) -> bool {
    request matches Request::MapPage { va: _, paddr, size, flags: _ } ==> exists|base: u32|
        #![trigger m.dom().contains(base)]
        {
            &&& m.dom().contains(base)
            &&& base <= pn < base + m[base].size / PAGE_SIZE_4K
            &&& paddr == m[base].paddr + (pn - base) * PAGE_SIZE_4K
            &&& size.bytes() <= m[base].size
            &&& size is Size4K || base == pn
        }
}

/// Whether huge pages of the cache start at multiples of their size.
pub open spec fn huge_aligned(m: Map<u32, PageCache>) -> bool {
    forall|base: u32| #[trigger]
        m.dom().contains(base) && m[base].size == PAGE_SIZE_2M ==> base as int % 512 == 0
}

/// Whether small pages have the same place in huge pages of the address space and
/// of the file.
pub open spec fn congruent(inner: FileBackendInner) -> bool {
    &&& inner.start as int % PAGE_SIZE_4K as int == 0
    &&& (inner.start as int / PAGE_SIZE_4K as int - inner.offset_page) % 512 == 0
}

/// Whether a population keeps the page number in step with the address.
pub open spec fn in_step(t: FilePopulateView) -> bool {
    &&& t.wf()
    &&& match t.state {
        FilePopulateState::Begin | FilePopulateState::AwaitLen => t.range.start as int
            % PAGE_SIZE_4K as int == 0 || t.state is Begin,
        FilePopulateState::Over => true,
        _ => {
            &&& t.va as int % PAGE_SIZE_4K as int == 0
            &&& t.pn == t.backend.inner.page_at(t.va as int)
            &&& t.state is Fetching ==> t.fetch.size == PAGE_SIZE_4K
        },
    }
}

/// A fetch that ends has its page in the cache.
proof fn lemma_fetched(f: PageFetch, cache: CacheView, reply: Reply)
    requires
        cache.wf(),
        f.wf(),
        f.awaits(reply),
        f.after(cache, reply).turn matches Turn::Finished(Ok(_)),
    ensures
        ({
            let s = f.after(cache, reply);
            let m = page_map(s.cache.pages);
            m.dom().contains(f.pn) && Some(m[f.pn]) == (match s.turn {
                Turn::Finished(Ok(fetched)) => Some(fetched.page),
                _ => None,
            })
        }),
{
    reveal(PageFetch::after);
    lemma_lookup_map(cache.pages, f.pn);
    lemma_touched(cache.pages, f.pn);
    match (f.state, reply) {
        (FetchState::AwaitPage, Reply::Addr(paddr)) => {
            lemma_pushed(
                cache.pages,
                cache.cap,
                f.pn,
                PageCache { paddr, dirty: false, size: f.size },
            );
        },
        (FetchState::AwaitRead, Reply::Done) => {
            lemma_pushed(cache.pages, cache.cap, f.pn, f.fresh);
        },
        _ => {},
    }
}

/// What a step of a fetch leaves as it is, and the page that it ends with.
proof fn lemma_fetch_kept(f: PageFetch, cache: CacheView, reply: Reply)
    requires
        cache.wf(),
        f.wf(),
        f.awaits(reply),
    ensures
        ({
            let s = f.after(cache, reply);
            &&& s.next.pn == f.pn
            &&& s.next.size == f.size
            &&& s.next.wf()
            &&& s.turn matches Turn::Ask(request) ==> !(s.next.state is Begin) && !(request is MapPage)
                && !(f.state is Begin && has_key(cache.pages, f.pn))
            &&& s.turn matches Turn::Finished(Ok(fetched)) ==> fetched.page.wf() && (if f.state is Begin {
                has_key(cache.pages, f.pn) && fetched.page == page_map(cache.pages)[f.pn]
            } else {
                fetched.page.size == f.size
            })
        }),
{
    reveal(PageFetch::after);
    lemma_lookup_map(cache.pages, f.pn);
    if has_key(cache.pages, f.pn) {
        assert(page_map(cache.pages).dom().contains(f.pn));
        assert(page_map(cache.pages)[f.pn].wf());
    }
}

/// A page that was fetched is mapped.
proof fn lemma_maps_fetched(t: FilePopulateView, s: FetchStep)
    requires
        t.backend.inner.has(t.range),
        t.range.start <= t.va < t.range.end,
        t.va as int % PAGE_SIZE_4K as int == 0,
        t.pn == t.backend.inner.page_at(t.va as int),
        congruent(t.backend.inner),
        s.turn matches Turn::Finished(Ok(fetched)) && ({
            let m = page_map(s.cache.pages);
            &&& m.dom().contains(t.base_pn)
            &&& m[t.base_pn] == fetched.page
            &&& fetched.page.wf()
            &&& fetched.page.size == t.page_size
            &&& t.base_pn <= t.pn < t.base_pn + t.page_size / PAGE_SIZE_4K
            &&& t.page_size == PAGE_SIZE_2M ==> t.base_pn as int % 512 == 0
        }),
    ensures
        t.fetching(s).turn matches Turn::Ask(request) && maps_cached(
            page_map(s.cache.pages),
            t.pn as int,
            request,
        ),
{
    let m = page_map(s.cache.pages);
    let page = m[t.base_pn];
    assert(page.paddr + (t.pn - t.base_pn) * PAGE_SIZE_4K <= usize::MAX);
    if fits_whole(t.range, t.va, t.page_size) {
        if t.page_size == PAGE_SIZE_2M {
            assert(t.va as int % 2_097_152 == 0);
            let start = t.backend.inner.start as int;
            assert(t.pn == (t.va - start) / 4096 + t.backend.inner.offset_page);
            assert((t.va - start) / 4096 == t.va as int / 4096 - start / 4096);
            assert(t.pn as int % 512 == 0);
            assert(t.base_pn == t.pn);
        } else {
            assert(t.base_pn == t.pn);
        }
    }
}

/// Every page that a population of a mapped file asks to be mapped is the cached
/// page with the file's page for that address in it.
pub proof fn law_file_mapping_shows_the_cache(t: FilePopulateView, cache: CacheView, reply: Reply)
    requires
        in_step(t),
        t.awaits(cache, reply),
        cache.wf(),
        huge_aligned(page_map(cache.pages)),
        congruent(t.backend.inner),
    ensures
        ({
            let s = t.after(cache, reply);
            s.turn matches Turn::Ask(request) ==> maps_cached(
                page_map(s.cache.pages),
                t.pn as int,
                request,
            )
        }),
{
    reveal(FilePopulateView::after);
    match (t.state, reply) {
        (FilePopulateState::Fetching, _) => {
            let s = t.fetch.after(cache, reply);
            lemma_fetch_kept(t.fetch, cache, reply);
            if s.turn matches Turn::Finished(Ok(_)) {
                lemma_fetched(t.fetch, cache, reply);
                lemma_maps_fetched(t, s);
            }
        },
        (FilePopulateState::AwaitEntry, Reply::Fault(crate::error::PagingError::NotMapped)) => {
            let m = page_map(cache.pages);
            let (base, size) = chunk_from(m, 0, t.pn as int);
            let c = cache.with_pages(chunk_order(cache.pages, m, 0, t.pn as int));
            let base_pn = match base {
                Some(pn) => pn,
                None => t.pn,
            };
            let f = t.backend.inner.cache.fetch_of(base_pn, size);
            let s = f.after(c, Reply::Start);
            lemma_chunk_order(cache.pages, m, 0, t.pn as int);
            if base is Some {
                lemma_chunk_covers(m, 0, t.pn as int);
                assert(m[base_pn].wf());
            } else {
                lemma_unfound(m, 0, t.pn as int);
                lemma_lookup_map(c.pages, t.pn);
            }
            lemma_seek_aligned(t.backend.inner.cache, cache, t.pn);
            lemma_fetch_kept(f, c, Reply::Start);
            if s.turn matches Turn::Finished(Ok(_)) {
                assert(f.wf());
                lemma_fetched(f, c, Reply::Start);
                lemma_touched(c.pages, base_pn);
                lemma_lookup_map(c.pages, base_pn);
                lemma_maps_fetched(FilePopulateView { base_pn, page_size: size, ..t }, s);
            }
        },
        _ => {},
    }
}

/// Where the walk finds no chunk, the small page is not cached.
proof fn lemma_unfound(m: Map<u32, PageCache>, at: int, pn: int)
    requires
        0 <= at <= pn <= u32::MAX,
        chunk_from(m, at, pn).0 is None,
    ensures
        !m.dom().contains(pn as u32),
    decreases pn - at + 1,
{
    if covers(m, at, pn) {
    } else if at < pn {
        if at + step(m, at) <= pn {
            lemma_unfound(m, at + step(m, at), pn);
        }
    }
}

/// Behind more bytes the page number is still in step with the address.
proof fn lemma_behind(t: FilePopulateView, bytes: int, flags: MappingFlags)
    requires
        t.backend.inner.has(t.range),
        t.moving(),
        t.va < t.range.end,
        t.va as int % PAGE_SIZE_4K as int == 0,
        t.pn == t.backend.inner.page_at(t.va as int),
        congruent(t.backend.inner),
        0 < bytes <= PAGE_SIZE_2M,
        bytes % PAGE_SIZE_4K as int == 0,
    ensures
        ({
            let u = t.behind(bytes, flags);
            &&& u.moving()
            &&& u.va == t.va + bytes
            &&& u.va as int % PAGE_SIZE_4K as int == 0
            &&& u.pn == u.backend.inner.page_at(u.va as int)
        }),
{
    let start = t.backend.inner.start as int;
    assert((t.va + bytes) % 4096 == 0);
    assert((t.va + bytes - start) / 4096 == (t.va - start) / 4096 + bytes / 4096);
    let first = t.range.start as int;
    assert(((t.va + bytes - start) / 4096 - (first - start) / 4096) * 4096 <= t.va + bytes - first) by {
        assert((t.va + bytes - start) % 4096 == 0);
    }
}

/// What is left of a page behind an address is made of small pages.
proof fn lemma_rest(va: usize, size: PageSize)
    requires
        va as int % PAGE_SIZE_4K as int == 0,
        !(size is Size1G),
    ensures
        ({
            let rest = size.bytes() - va as int % size.bytes() as int;
            &&& rest % PAGE_SIZE_4K as int == 0
            &&& 0 < rest <= PAGE_SIZE_2M
        }),
{
    match size {
        PageSize::Size4K => {
            assert(va as int % 4096 == 0);
        },
        PageSize::Size2M => {
            assert((2_097_152 - va as int % 2_097_152) % 4096 == 0);
        },
        PageSize::Size1G => {},
    }
}

/// A fetch of a small page, or of a page that is cached, leaves the huge pages of
/// the cache at multiples of their size.
proof fn lemma_fetch_aligned(f: PageFetch, cache: CacheView, reply: Reply)
    requires
        cache.wf(),
        f.wf(),
        f.awaits(reply),
        huge_aligned(page_map(cache.pages)),
        f.size == PAGE_SIZE_4K || (f.state is Begin && has_key(cache.pages, f.pn)),
    ensures
        huge_aligned(page_map(f.after(cache, reply).cache.pages)),
{
    reveal(PageFetch::after);
    lemma_touched(cache.pages, f.pn);
    match (f.state, reply) {
        (FetchState::Begin, _) => {
            if !has_key(cache.pages, f.pn) && cache.full() {
                lemma_drop_last(cache.pages);
            }
        },
        (FetchState::AwaitPage, Reply::Addr(paddr)) => {
            lemma_pushed(
                cache.pages,
                cache.cap,
                f.pn,
                PageCache { paddr, dirty: false, size: f.size },
            );
        },
        (FetchState::AwaitRead, Reply::Done) => {
            lemma_pushed(cache.pages, cache.cap, f.pn, f.fresh);
        },
        _ => {},
    }
}

/// The search for the cached page with a small page in it leaves the huge pages of
/// the cache at multiples of their size, and asks for a small page where it finds
/// none.
proof fn lemma_seek_aligned(file: CachedFile, cache: CacheView, pn: u32)
    requires
        cache.wf(),
        pn + THP_NR_4K_PAGES <= u32::MAX,
    ensures
        ({
            let m = page_map(cache.pages);
            let (base, size) = chunk_from(m, 0, pn as int);
            let c = cache.with_pages(chunk_order(cache.pages, m, 0, pn as int));
            let base_pn = match base {
                Some(found) => found,
                None => pn,
            };
            let f = file.fetch_of(base_pn, size);
            let s = f.after(c, Reply::Start);
            &&& f.wf()
            &&& is_cache_page_size(size)
            &&& base_pn <= pn
            &&& s.turn is Ask ==> base_pn == pn && size == PAGE_SIZE_4K && s.next.size
                == PAGE_SIZE_4K && s.next.pn == pn && s.next.wf() && !(s.next.state is Begin)
            &&& huge_aligned(m) ==> huge_aligned(page_map(s.cache.pages))
        }),
{
    reveal(PageFetch::after);
    let m = page_map(cache.pages);
    let (base, size) = chunk_from(m, 0, pn as int);
    let c = cache.with_pages(chunk_order(cache.pages, m, 0, pn as int));
    lemma_chunk_order(cache.pages, m, 0, pn as int);
    let base_pn = match base {
        Some(found) => found,
        None => pn,
    };
    lemma_chunk_covers(m, 0, pn as int);
    if base is Some {
        assert(m[base_pn].wf());
    }
    lemma_lookup_map(c.pages, base_pn);
    if huge_aligned(m) {
        lemma_fetch_aligned(file.fetch_of(base_pn, size), c, Reply::Start);
    }
}

/// A step of a population keeps the page number in step with the address, and the
/// huge pages of the cache at multiples of their size.
pub proof fn law_file_population_keeps_in_step(t: FilePopulateView, cache: CacheView, reply: Reply)
    requires
        in_step(t),
        t.awaits(cache, reply),
        cache.wf(),
        congruent(t.backend.inner),
    ensures
        in_step(t.after(cache, reply).next),
        huge_aligned(page_map(cache.pages)) ==> huge_aligned(
            page_map(t.after(cache, reply).cache.pages),
        ),
{
    reveal(FilePopulateView::after);
    match (t.state, reply) {
        (FilePopulateState::AwaitLen, Reply::Len(_)) => {
            assert(t.backend.inner.page_at(t.range.start as int) <= u32::MAX);
        },
        (FilePopulateState::AwaitEntry, Reply::Entry { paddr: _, flags, size }) => {
            lemma_rest(t.va, size);
            lemma_behind(t, t.rest(size), flags);
            lemma_touched(cache.pages, t.pn);
            lemma_lookup_map(cache.pages, t.pn);
            if has_key(cache.pages, t.pn) {
                let page = page_map(cache.pages)[t.pn];
                lemma_placed(cache.pages, t.pn, PageCache { dirty: true, ..page });
            }
        },
        (FilePopulateState::AwaitEntry, Reply::Fault(crate::error::PagingError::NotMapped)) => {
            lemma_seek_aligned(t.backend.inner.cache, cache, t.pn);
        },
        (FilePopulateState::Fetching, _) => {
            lemma_fetch_kept(t.fetch, cache, reply);
            if huge_aligned(page_map(cache.pages)) {
                lemma_fetch_aligned(t.fetch, cache, reply);
            }
        },
        (FilePopulateState::AwaitRemap, Reply::Done) => {
            lemma_rest(t.va, t.step);
            lemma_behind(t, t.rest(t.step), t.flags);
        },
        (FilePopulateState::AwaitMap, Reply::Done) => {
            lemma_behind(t, PAGE_SIZE_4K as int, t.map_flags());
            lemma_behind(t, t.page_size as int, t.map_flags());
        },
        _ => {},
    }
}

/// Whether a population of shared memory keeps the page number in step with the
/// address.
pub open spec fn in_place(t: SharedPopulate) -> bool {
    &&& t.wf()
    &&& match t.state {
        PopulateState::Begin => t.range.start as int % PAGE_SIZE_4K as int == 0,
        PopulateState::Over => true,
        _ => {
            &&& t.va as int % PAGE_SIZE_4K as int == 0
            &&& t.pn == page_number(t.backend.inner.start, t.va as int)
            &&& t.state is Fetching ==> t.fetch.size == PAGE_SIZE_4K
        },
    }
}

/// A page of shared memory that was fetched is mapped.
proof fn lemma_shared_maps_fetched(t: SharedPopulate, s: FetchStep)
    requires
        in_mapping(t.backend.inner.start, t.range),
        t.range.start <= t.va < t.range.end,
        t.va as int % PAGE_SIZE_4K as int == 0,
        t.pn == page_number(t.backend.inner.start, t.va as int),
        t.backend.inner.start as int % PAGE_SIZE_2M as int == 0,
        s.turn matches Turn::Finished(Ok(fetched)) && ({
            let m = page_map(s.cache.pages);
            &&& m.dom().contains(t.base_pn)
            &&& m[t.base_pn] == fetched.page
            &&& fetched.page.wf()
            &&& fetched.page.size == t.page_size
            &&& t.base_pn <= t.pn < t.base_pn + t.page_size / PAGE_SIZE_4K
            &&& t.page_size == PAGE_SIZE_2M ==> t.base_pn as int % 512 == 0
        }),
    ensures
        t.fetching(s).turn matches Turn::Ask(request) && maps_cached(
            page_map(s.cache.pages),
            t.pn as int,
            request,
        ),
{
    let m = page_map(s.cache.pages);
    let page = m[t.base_pn];
    assert(page.paddr + (t.pn - t.base_pn) * PAGE_SIZE_4K <= usize::MAX);
    if fits_whole(t.range, t.va, t.page_size) {
        if t.page_size == PAGE_SIZE_2M {
            assert(t.va as int % 2_097_152 == 0);
            let start = t.backend.inner.start as int;
            assert(start % 2_097_152 == 0);
            assert((t.va - start) / 4096 % 512 == 0);
            assert(t.base_pn == t.pn);
        } else {
            assert(t.base_pn == t.pn);
        }
    }
}

/// Every page that a population of shared memory asks to be mapped is the cached
/// page with the small page for that address in it.
pub proof fn law_shared_mapping_shows_the_cache(t: SharedPopulate, cache: CacheView, reply: Reply)
    requires
        in_place(t),
        t.awaits(reply),
        cache.wf(),
        huge_aligned(page_map(cache.pages)),
        t.backend.inner.start as int % PAGE_SIZE_2M as int == 0,
    ensures
        ({
            let s = t.after(cache, reply);
            s.turn matches Turn::Ask(request) ==> maps_cached(
                page_map(s.cache.pages),
                t.pn as int,
                request,
            )
        }),
{
    reveal(SharedPopulate::after);
    match (t.state, reply) {
        (PopulateState::Fetching, _) => {
            let s = t.fetch.after(cache, reply);
            lemma_fetch_kept(t.fetch, cache, reply);
            if s.turn matches Turn::Finished(Ok(_)) {
                lemma_fetched(t.fetch, cache, reply);
                lemma_shared_maps_fetched(t, s);
            }
        },
        (PopulateState::AwaitEntry, Reply::Fault(crate::error::PagingError::NotMapped)) => {
            let m = page_map(cache.pages);
            let (base, size) = chunk_from(m, 0, t.pn as int);
            let c = cache.with_pages(chunk_order(cache.pages, m, 0, t.pn as int));
            let base_pn = match base {
                Some(pn) => pn,
                None => t.pn,
            };
            let f = t.backend.inner.cache.fetch_of(base_pn, size);
            let s = f.after(c, Reply::Start);
            lemma_chunk_order(cache.pages, m, 0, t.pn as int);
            if base is Some {
                lemma_chunk_covers(m, 0, t.pn as int);
                assert(m[base_pn].wf());
            } else {
                lemma_unfound(m, 0, t.pn as int);
                lemma_lookup_map(c.pages, t.pn);
            }
            lemma_seek_aligned(t.backend.inner.cache, cache, t.pn);
            lemma_fetch_kept(f, c, Reply::Start);
            if s.turn matches Turn::Finished(Ok(_)) {
                assert(f.wf());
                lemma_fetched(f, c, Reply::Start);
                lemma_touched(c.pages, base_pn);
                lemma_lookup_map(c.pages, base_pn);
                lemma_shared_maps_fetched(SharedPopulate { base_pn, page_size: size, ..t }, s);
            }
        },
        _ => {},
    }
}

/// Behind more bytes the page number is still in step with the address.
proof fn lemma_shared_behind(t: SharedPopulate, bytes: int, flags: MappingFlags)
    requires
        in_mapping(t.backend.inner.start, t.range),
        t.moving(),
        t.va < t.range.end,
        t.va as int % PAGE_SIZE_4K as int == 0,
        t.pn == page_number(t.backend.inner.start, t.va as int),
        t.backend.inner.start as int % PAGE_SIZE_2M as int == 0,
        0 < bytes <= PAGE_SIZE_2M,
        bytes % PAGE_SIZE_4K as int == 0,
    ensures
        ({
            let u = t.behind(bytes, flags);
            &&& u.moving()
            &&& u.va == t.va + bytes
            &&& u.va as int % PAGE_SIZE_4K as int == 0
            &&& u.pn == page_number(u.backend.inner.start, u.va as int)
        }),
{
    let start = t.backend.inner.start as int;
    assert(start % 2_097_152 == 0);
    assert((t.va + bytes) % 4096 == 0);
    assert((t.va + bytes - start) / 4096 == (t.va - start) / 4096 + bytes / 4096);
    let first = t.range.start as int;
    assert(((t.va + bytes - start) / 4096 - (first - start) / 4096) * 4096 <= t.va + bytes - first) by {
        assert((t.va + bytes - start) % 4096 == 0);
    }
}

/// A step of a population of shared memory keeps the page number in step with the
/// address, and the huge pages of the cache at multiples of their size.
pub proof fn law_shared_population_stays_in_place(t: SharedPopulate, cache: CacheView, reply: Reply)
    requires
        in_place(t),
        t.awaits(reply),
        cache.wf(),
        t.backend.inner.start as int % PAGE_SIZE_2M as int == 0,
    ensures
        in_place(t.after(cache, reply).next),
        huge_aligned(page_map(cache.pages)) ==> huge_aligned(
            page_map(t.after(cache, reply).cache.pages),
        ),
{
    reveal(SharedPopulate::after);
    match (t.state, reply) {
        (PopulateState::Begin, _) => {
            assert(page_number(t.backend.inner.start, t.range.start as int) <= u32::MAX);
        },
        (PopulateState::AwaitEntry, Reply::Entry { paddr: _, flags, size }) => {
            lemma_rest(t.va, size);
            lemma_shared_behind(t, t.rest(size), flags);
        },
        (PopulateState::AwaitEntry, Reply::Fault(crate::error::PagingError::NotMapped)) => {
            lemma_seek_aligned(t.backend.inner.cache, cache, t.pn);
        },
        (PopulateState::Fetching, _) => {
            lemma_fetch_kept(t.fetch, cache, reply);
            if huge_aligned(page_map(cache.pages)) {
                lemma_fetch_aligned(t.fetch, cache, reply);
            }
        },
        (PopulateState::AwaitMap, Reply::Done) => {
            lemma_shared_behind(t, PAGE_SIZE_4K as int, t.flags);
            lemma_shared_behind(t, t.page_size as int, t.flags);
        },
        _ => {},
    }
}

} // verus!
