//! Collapsing a window of a mapped file into a huge page keeps what its addresses
//! read.

use vstd::prelude::*;
use crate::addr::{
    page_starts, PageSize, VirtAddrRange, PAGE_SIZE_2M, PAGE_SIZE_4K, THP_NR_4K_PAGES,
};
use crate::effect::{Effect, Reply, Request, Turn};
use crate::error::{AxError, PagingError};
use crate::flags::MappingFlags;
use crate::fs::cache::{pages_ok, CacheView};
use crate::fs::chunks::{apart, chunk_from, chunk_order, covers, lemma_chunk_order, step};
use crate::fs::fetch::{FetchState, PageFetch};
use crate::fs::fetch_law::lemma_pages_ok_insert;
use crate::fs::merge_law::{in_window, law_merge_begins_with_notices};
use crate::fs::page::PageCache;
use crate::fs::recency::{
    distinct, has_key, lemma_lookup_map, lemma_pushed, lemma_touched, lookup, page_map, touched,
};
use crate::fs::world::{area, disjoint, owned};
use crate::mm::file::FileBackend;
use crate::mm::file_collapse::{
    clash_from, clashes, FileCollapse, FileCollapseState, FileCollapseView,
};
use crate::mm::file_populate::{FilePopulateState, FilePopulateView};
use crate::mm::mapped_count_law::kept;
use crate::mm::shared::CacheStep;
use crate::mm::shared_collapse_law::{
    lemma_gathered, lemma_in_window, lemma_unchanged, lemma_window_page, FileWindow,
};
use crate::mm::shared_populate::{fits_whole, table_size};
use crate::mm::space::{
    first_rights, lemma_performed_behind, number, placed, refused, same_block, within, PageEntry, Space,
};

verus! {

impl FileWindow {
    /// Whether a huge page is cached for the window.
    pub open spec fn has_huge(self, m: Map<u32, PageCache>) -> bool {
        m.dom().contains(self.start_pn) && m[self.start_pn].size == PAGE_SIZE_2M
    }

    /// Whether no cached huge page has a page of the window in it.
    pub open spec fn plain(self, m: Map<u32, PageCache>) -> bool {
        forall|pn: u32| #[trigger]
            m.dom().contains(pn) && m[pn].size == PAGE_SIZE_2M ==> pn + THP_NR_4K_PAGES
                <= self.start_pn || self.start_pn + THP_NR_4K_PAGES <= pn
    }

    /// Whether every mapped page of the window is its part of the cached huge page.
    pub open spec fn shows_huge(self, t: Map<int, PageEntry>, m: Map<u32, PageCache>) -> bool {
        forall|p: int| #[trigger]
            t.dom().contains(p) && within(self.range, p) ==> t[p].paddr == m[self.start_pn].paddr + (p
                - self.first()) * PAGE_SIZE_4K
    }

    /// Whether the mapped pages of the window are the cached ones: its part of a
    /// huge page, or small pages. None of those lies in memory that belongs to
    /// nobody. Where a huge page is cached across an end of the window, the pages of
    /// the cache lie beside each other.
    pub open spec fn shown(self, s: Space, m: Map<u32, PageCache>) -> bool {
        if self.has_huge(m) {
            self.shows_huge(s.table, m)
        } else if self.plain(m) {
            &&& self.shows_small(s.table, m)
            &&& forall|pn: u32| #[trigger] m.dom().contains(pn) ==> owned(s.around(), m[pn])
        } else {
            apart(m)
        }
    }

    /// Whether pages of the window may have been brought in, and nothing else is
    /// different.
    pub open spec fn grown(self, before: Space, s: Space, m: Map<u32, PageCache>) -> bool {
        &&& self.aside(before, s)
        &&& forall|p: int| #[trigger]
            before.table.dom().contains(p) && within(self.range, p) ==> kept(
                s.table,
                before.table,
                p,
            )
        &&& s.free.subset_of(before.free)
        &&& self.plain(m)
        &&& self.shows_small(s.table, m)
        &&& forall|pn: u32| #[trigger] m.dom().contains(pn) ==> owned(s.around(), m[pn])
    }

    /// Whether a page is a new small one, in memory that belonged to nobody.
    pub open spec fn fresh(self, before: Space, s: Space, m: Map<u32, PageCache>, page: PageCache) -> bool {
        &&& page.wf()
        &&& page.size == PAGE_SIZE_4K
        &&& owned(s.around(), page)
        &&& area(page.paddr as int, PAGE_SIZE_4K as int).subset_of(before.free)
        &&& forall|pn: u32| #[trigger] m.dom().contains(pn) ==> disjoint(m[pn], page)
    }
}

/// A new page is there.
proof fn lemma_allocated(
    w: FileWindow,
    before: Space,
    s: Space,
    m: Map<u32, PageCache>,
    paddr: usize,
    after: Space,
)
    requires
        w.grown(before, s, m),
        pages_ok(m),
        after.table == s.table,
        after.mem == s.mem,
        paddr + PAGE_SIZE_4K <= usize::MAX,
        area(paddr as int, PAGE_SIZE_4K as int).subset_of(s.free),
        after.free == s.free.difference(area(paddr as int, PAGE_SIZE_4K as int)),
    ensures
        w.grown(before, after, m),
        w.fresh(
            before,
            after,
            m,
            PageCache { paddr, dirty: false, size: PAGE_SIZE_4K },
        ),
{
    let page = PageCache { paddr, dirty: false, size: PAGE_SIZE_4K };
    let taken = area(paddr as int, PAGE_SIZE_4K as int);
    assert forall|pn: u32| #[trigger] m.dom().contains(pn) implies owned(after.around(), m[pn])
        && disjoint(m[pn], page) by {
        assert(m[pn].wf());
        assert(owned(s.around(), m[pn]));
        assert forall|a: int| m[pn].paddr <= a < m[pn].paddr + m[pn].size implies !#[trigger] after.around().free.contains(
        a) by {
            assert(!s.around().free.contains(a));
        }
        if !disjoint(m[pn], page) {
            let common = if m[pn].paddr < paddr {
                paddr as int
            } else {
                m[pn].paddr as int
            };
            assert(taken.contains(common));
            assert(s.around().free.contains(common));
        }
    }
    assert forall|a: int| paddr <= a < paddr + PAGE_SIZE_4K implies !#[trigger] after.around().free.contains(
    a) by {
        assert(taken.contains(a));
    }
    assert(w.aside(before, after)) by {
        assert forall|p: int| !within(w.range, p) implies #[trigger] kept(
            after.table,
            before.table,
            p,
        ) by {
            assert(kept(s.table, before.table, p));
        }
        assert forall|a: int| !before.free.contains(a) implies #[trigger] after.mem[a] == before.mem[a] by {
            assert(s.mem[a] == before.mem[a]);
        }
    }
}

/// A new page is filled.
proof fn lemma_filled(
    w: FileWindow,
    before: Space,
    s: Space,
    m: Map<u32, PageCache>,
    page: PageCache,
    after: Space,
)
    requires
        w.grown(before, s, m),
        w.fresh(before, s, m, page),
        after.table == s.table,
        after.free == s.free,
        forall|a: int|
            !(page.paddr <= a < page.paddr + PAGE_SIZE_4K) ==> #[trigger] after.mem[a] == s.mem[a],
    ensures
        w.grown(before, after, m),
        w.fresh(before, after, m, page),
{
    assert(w.aside(before, after)) by {
        assert forall|p: int| !within(w.range, p) implies #[trigger] kept(
            after.table,
            before.table,
            p,
        ) by {
            assert(kept(s.table, before.table, p));
        }
        assert forall|a: int| !before.free.contains(a) implies #[trigger] after.mem[a] == before.mem[a] by {
            if page.paddr <= a < page.paddr + PAGE_SIZE_4K {
                assert(area(page.paddr as int, PAGE_SIZE_4K as int).contains(a));
            }
            assert(after.mem[a] == s.mem[a]);
            assert(s.mem[a] == before.mem[a]);
        }
    }
    assert(after.around().free == s.around().free);
    assert forall|pn: u32| #[trigger] m.dom().contains(pn) implies owned(after.around(), m[pn]) by {
        assert(owned(s.around(), m[pn]));
    }
}

/// A new page is put into the cache.
proof fn lemma_landed(
    w: FileWindow,
    before: Space,
    s: Space,
    m: Map<u32, PageCache>,
    pn: u32,
    page: PageCache,
)
    requires
        w.ok(),
        w.grown(before, s, m),
        w.fresh(before, s, m, page),
        in_window(w.start_pn, pn),
        !m.dom().contains(pn),
    ensures
        w.grown(before, s, m.insert(pn, page)),
{
    let n = m.insert(pn, page);
    assert forall|p: int| #[trigger] s.table.dom().contains(p) && within(w.range, p) implies {
        &&& n.dom().contains(w.pn(p))
        &&& s.table[p].paddr == n[w.pn(p)].paddr
    } by {
        assert(m.dom().contains(w.pn(p)));
    }
    assert forall|q: u32| #[trigger] n.dom().contains(q) && n[q].size == PAGE_SIZE_2M implies q
        + THP_NR_4K_PAGES <= w.start_pn || w.start_pn + THP_NR_4K_PAGES <= q by {
        assert(m.dom().contains(q));
    }
}

/// A new page is given back.
proof fn lemma_given_up(
    w: FileWindow,
    before: Space,
    s: Space,
    m: Map<u32, PageCache>,
    page: PageCache,
    after: Space,
)
    requires
        w.grown(before, s, m),
        w.fresh(before, s, m, page),
        after.table == s.table,
        after.mem == s.mem,
        after.free == s.free.union(area(page.paddr as int, PAGE_SIZE_4K as int)),
    ensures
        w.grown(before, after, m),
{
    assert forall|pn: u32| #[trigger] m.dom().contains(pn) implies owned(after.around(), m[pn]) by {
        assert(owned(s.around(), m[pn]));
        assert(disjoint(m[pn], page));
        assert forall|a: int| m[pn].paddr <= a < m[pn].paddr + m[pn].size implies !#[trigger] after.around().free.contains(
        a) by {
            assert(!s.around().free.contains(a));
        }
    }
    assert(w.aside(before, after)) by {
        assert forall|p: int| !within(w.range, p) implies #[trigger] kept(
            after.table,
            before.table,
            p,
        ) by {
            assert(kept(s.table, before.table, p));
        }
        assert forall|a: int| !before.free.contains(a) implies #[trigger] after.mem[a] == before.mem[a] by {
            assert(s.mem[a] == before.mem[a]);
        }
    }
}

/// A cached small page is mapped where none was.
proof fn lemma_one_mapped(
    w: FileWindow,
    before: Space,
    s: Space,
    m: Map<u32, PageCache>,
    p: int,
    flags: MappingFlags,
)
    requires
        w.ok(),
        w.grown(before, s, m),
        within(w.range, p),
        m.dom().contains(w.pn(p)),
        !s.table.dom().contains(p),
    ensures
        w.grown(
            before,
            Space {
                table: placed(
                    s.table,
                    p,
                    m[w.pn(p)].paddr as int,
                    PageSize::Size4K,
                    flags,
                ),
                ..s
            },
            m,
        ),
{
    let t = placed(s.table, p, m[w.pn(p)].paddr as int, PageSize::Size4K, flags);
    let after = Space { table: t, ..s };
    assert forall|q: int| q != p implies #[trigger] kept(t, s.table, q) by {
        assert(!same_block(p, q, PageSize::Size4K));
    }
    assert(t.dom().contains(p) && t[p].paddr == m[w.pn(p)].paddr) by {
        assert(same_block(p, p, PageSize::Size4K));
    }
    assert forall|q: int| !within(w.range, q) implies #[trigger] kept(t, before.table, q) by {
        assert(kept(t, s.table, q));
        assert(kept(s.table, before.table, q));
    }
    assert forall|q: int| #[trigger] before.table.dom().contains(q) && within(w.range, q) implies kept(
        t,
        before.table,
        q,
    ) by {
        assert(kept(s.table, before.table, q));
        assert(kept(t, s.table, q));
    }
    assert forall|q: int| #[trigger] t.dom().contains(q) && within(w.range, q) implies {
        &&& m.dom().contains(w.pn(q))
        &&& t[q].paddr == m[w.pn(q)].paddr
    } by {
        if q != p {
            assert(kept(t, s.table, q));
            assert(s.table.dom().contains(q));
        }
    }
    assert(after.around() == s.around());
}

/// In a window without a huge page the chunk with a page in it is that page.
proof fn lemma_plain_chunk(w: FileWindow, m: Map<u32, PageCache>, at: int, pn: u32)
    requires
        w.plain(m),
        pages_ok(m),
        in_window(w.start_pn, pn),
        0 <= at <= pn || (at > pn && !m.dom().contains(pn)),
    ensures
        chunk_from(m, at, pn as int) == (if m.dom().contains(pn) {
            (Some(pn), PAGE_SIZE_4K)
        } else {
            (None::<u32>, PAGE_SIZE_4K)
        }),
    decreases pn - at + 1,
{
    if at > pn {
    } else {
        let a = at as u32;
        if m.dom().contains(a) {
            assert(m[a].wf());
        }
        if covers(m, at, pn as int) {
            assert(a == pn);
        } else {
            assert(at + step(m, at) <= pn || !m.dom().contains(pn)) by {
                if at + step(m, at) > pn {
                    if at < pn {
                        assert(step(m, at) == THP_NR_4K_PAGES);
                        assert(covers(m, at, pn as int));
                    }
                }
            }
            lemma_plain_chunk(w, m, at + step(m, at), pn);
        }
    }
}

/// Whether a population is one of a single page of a window, for reading.
pub open spec fn brings(f: FilePopulateView, w: FileWindow, va: usize) -> bool {
    &&& f.backend.inner.has(w.range)
    &&& f.backend.inner.page_at(w.range.start as int) == w.start_pn
    &&& f.range == (VirtAddrRange { start: va, end: (va + PAGE_SIZE_4K) as usize })
    &&& f.va == va
    &&& va as int % PAGE_SIZE_4K as int == 0
    &&& within(w.range, number(va))
    &&& !f.access_flags.writable()
    &&& f.evicted is None
}

/// Whether a fetch is one of a small page that is not cached, and no page left for
/// it.
pub open spec fn fetches(
    f: PageFetch,
    w: FileWindow,
    before: Space,
    s: Space,
    m: Map<u32, PageCache>,
    pn: u32,
    request: Request,
) -> bool {
    &&& f.pn == pn
    &&& f.size == PAGE_SIZE_4K
    &&& f.evicted is None
    &&& !m.dom().contains(pn)
    &&& match f.state {
        FetchState::AwaitPage => request == (Request::AllocPage { bytes: PAGE_SIZE_4K }),
        FetchState::AwaitRead => {
            &&& w.fresh(before, s, m, f.fresh)
            &&& request matches Request::FileRead { paddr, len, offset: _ } && paddr == f.fresh.paddr
                && len == PAGE_SIZE_4K
        },
        _ => false,
    }
}

/// What holds of a population of a single page that waits for an answer.
pub open spec fn bring_waits(
    f: FilePopulateView,
    w: FileWindow,
    va: usize,
    before: Space,
    s: Space,
    cache: CacheView,
    request: Request,
) -> bool {
    let m = page_map(cache.pages);
    let pn = w.pn(number(va));
    &&& brings(f, w, va)
    &&& cache.wf()
    &&& w.grown(before, s, m)
    &&& match f.state {
        FilePopulateState::AwaitLen => request is FileLen,
        FilePopulateState::AwaitEntry => f.pn == pn && request == (Request::Query { va }),
        FilePopulateState::Fetching => {
            &&& f.pn == pn
            &&& f.base_pn == pn
            &&& f.page_size == PAGE_SIZE_4K
            &&& fetches(f.fetch, w, before, s, m, pn, request)
        },
        FilePopulateState::AwaitMap => {
            &&& f.page_size == PAGE_SIZE_4K
            &&& m.dom().contains(pn)
            &&& request == (Request::MapPage {
                va,
                paddr: m[pn].paddr,
                size: PageSize::Size4K,
                flags: f.map_flags(),
            })
        },
        _ => false,
    }
}

/// What holds after a step of a population of a single page.
pub open spec fn bring_steps(
    r: CacheStep<FilePopulateView, usize>,
    w: FileWindow,
    va: usize,
    before: Space,
    answered: Space,
) -> bool {
    let s = answered.all_performed(r.effects);
    match r.turn {
        Turn::Ask(request) => bring_waits(r.next, w, va, before, s, r.cache, request),
        Turn::Finished(_) => r.cache.wf() && w.grown(before, s, page_map(r.cache.pages)),
    }
}

/// The number of the page at an address of the window, and the bytes around it.
proof fn lemma_brings(f: FilePopulateView, w: FileWindow, va: usize)
    requires
        w.ok(),
        brings(f, w, va),
    ensures
        f.backend.inner.page_at(va as int) == w.pn(number(va)),
        in_window(w.start_pn, w.pn(number(va))),
        number(va) * PAGE_SIZE_4K == va,
        va + PAGE_SIZE_2M <= usize::MAX,
        f.range.end == va + PAGE_SIZE_4K,
        f.range.aligned_to(PageSize::Size4K),
        PAGE_SIZE_4K <= f.rest(PageSize::Size4K) <= PAGE_SIZE_2M,
        PAGE_SIZE_4K <= f.rest(PageSize::Size2M) <= PAGE_SIZE_2M,
        fits_whole(f.range, va, PAGE_SIZE_4K),
        table_size(PAGE_SIZE_4K) is Size4K,
{
    let start = f.backend.inner.start;
    let i = number(va) - w.first();
    lemma_in_window(w, number(va));
    assert(va == w.range.start + i * 4096);
    assert((va - start) / 4096 == (w.range.start - start) / 4096 + i);
    assert((va + 4096) % 4096 == 0);
    assert(va as int % 2_097_152 <= 2_097_152 - 4096) by {
        assert((va as int % 2_097_152) % 4096 == 0);
    }
}

/// A population that turns to the end of its range is over.
proof fn lemma_passed(
    f: FilePopulateView,
    cache: CacheView,
    w: FileWindow,
    va: usize,
    before: Space,
    answered: Space,
    bytes: int,
    flags: MappingFlags,
)
    requires
        w.ok(),
        brings(f, w, va),
        cache.wf(),
        w.grown(before, answered, page_map(cache.pages)),
        PAGE_SIZE_4K <= bytes <= PAGE_SIZE_2M,
    ensures
        bring_steps(
            f.behind(bytes, flags).entering(cache, Seq::empty()),
            w,
            va,
            before,
            answered,
        ),
{
    lemma_brings(f, w, va);
    assert(answered.all_performed(Seq::empty()) == answered);
}

/// The population looks at the page.
proof fn lemma_bring_looks(
    f: FilePopulateView,
    w: FileWindow,
    va: usize,
    before: Space,
    s: Space,
    cache: CacheView,
    reply: Reply,
)
    requires
        w.ok(),
        brings(f, w, va),
        cache.wf(),
        w.grown(before, s, page_map(cache.pages)),
        f.state is Begin || f.state is AwaitLen || (f.state is AwaitEntry && reply
            != Reply::Fault(PagingError::NotMapped)),
        f.awaits(cache, reply),
    ensures
        bring_steps(f.after(cache, reply), w, va, before, s),
        f.state is Begin ==> f.after(cache, reply).turn is Ask && f.after(cache, reply).effects
            =~= Seq::<Effect>::empty(),
{
    reveal(FilePopulateView::after);
    lemma_brings(f, w, va);
    assert(s.all_performed(Seq::empty()) == s);
    if f.state is AwaitEntry {
        if let Reply::Entry { paddr: _, flags, size } = reply {
            assert(!f.upgrades(flags));
            lemma_passed(f, cache, w, va, before, s, f.rest(size), flags);
        }
    }
}

/// The population seeks the page, which is cached or to be fetched.
proof fn lemma_bring_seeks(
    f: FilePopulateView,
    w: FileWindow,
    va: usize,
    before: Space,
    s: Space,
    cache: CacheView,
)
    requires
        w.ok(),
        brings(f, w, va),
        f.pn == w.pn(number(va)),
        cache.wf(),
        !cache.full(),
        w.grown(before, s, page_map(cache.pages)),
    ensures
        bring_steps(f.seeking(cache), w, va, before, s),
{
    reveal(PageFetch::after);
    let m = page_map(cache.pages);
    let pn = f.pn;
    lemma_brings(f, w, va);
    assert(s.all_performed(Seq::empty()) == s);
    lemma_plain_chunk(w, m, 0, pn);
    lemma_chunk_order(cache.pages, m, 0, pn as int);
    let order = chunk_order(cache.pages, m, 0, pn as int);
    let c = cache.with_pages(order);
    assert(c.wf());
    assert(page_map(order) == m);
    lemma_lookup_map(order, pn);
    lemma_touched(order, pn);
    let t = FilePopulateView { base_pn: pn, page_size: PAGE_SIZE_4K, ..f };
    let fs = f.backend.inner.cache.fetch_of(pn, PAGE_SIZE_4K).after(c, Reply::Start);
    assert(f.seeking(cache) == t.fetching(fs));
    if has_key(order, pn) {
        assert(m.dom().contains(pn));
    } else {
        assert(!m.dom().contains(pn));
    }
}

/// Whether a request is answered, by the page table or by the file, or, if there is
/// trouble, refused, which leaves the space as it is.
pub open spec fn answered_by_all(
    a: Space,
    request: Request,
    reply: Reply,
    space: Space,
    trouble: bool,
) -> bool {
    ||| a.answers(request, reply, space)
    ||| {
        &&& space.table == a.table
        &&& space.copy == a.copy
        &&& a.around().answers(request, reply, space.around())
    }
    ||| trouble && (refused(reply) || reply is Failed) && space == a
}

/// A new page that is filled is put into the cache, to be mapped.
proof fn lemma_bring_lands(
    f: FilePopulateView,
    w: FileWindow,
    va: usize,
    before: Space,
    answered: Space,
    cache: CacheView,
    effects: Seq<Effect>,
    page: PageCache,
)
    requires
        w.ok(),
        brings(f, w, va),
        f.pn == w.pn(number(va)),
        f.base_pn == f.pn,
        f.page_size == PAGE_SIZE_4K,
        f.fetch.pn == f.pn,
        f.fetch.evicted is None,
        cache.wf(),
        !cache.full(),
        !page_map(cache.pages).dom().contains(f.pn),
        w.grown(before, answered.all_performed(effects), page_map(cache.pages)),
        w.fresh(before, answered.all_performed(effects), page_map(cache.pages), page),
    ensures
        bring_steps(
            f.fetching(f.fetch.landing(cache, effects, page)),
            w,
            va,
            before,
            answered,
        ),
{
    let m = page_map(cache.pages);
    let pn = f.pn;
    let s = answered.all_performed(effects);
    lemma_brings(f, w, va);
    lemma_pushed(cache.pages, cache.cap, pn, page);
    lemma_pages_ok_insert(m, pn, page);
    lemma_landed(w, before, s, m, pn, page);
    let r = f.fetching(f.fetch.landing(cache, effects, page));
    assert(page_map(r.cache.pages) == m.insert(pn, page));
    assert(r.cache.wf());
}

/// The population fetches the page.
proof fn lemma_bring_fetches(
    f: FilePopulateView,
    w: FileWindow,
    va: usize,
    before: Space,
    s: Space,
    cache: CacheView,
    request: Request,
    reply: Reply,
    answered: Space,
)
    requires
        w.ok(),
        bring_waits(f, w, va, before, s, cache, request),
        f.state is Fetching,
        f.fetch.awaits(reply),
        !cache.full(),
        answered_by_all(s, request, reply, answered, true),
    ensures
        bring_steps(f.after(cache, reply), w, va, before, answered),
{
    reveal(PageFetch::after);
    reveal(FilePopulateView::after);
    let m = page_map(cache.pages);
    let g = f.fetch;
    lemma_brings(f, w, va);
    assert(s.all_performed(Seq::empty()) == s);
    assert(answered.all_performed(Seq::empty()) == answered);
    match (g.state, reply) {
        (FetchState::AwaitPage, Reply::Addr(paddr)) => {
            let page = PageCache { paddr, dirty: false, size: PAGE_SIZE_4K };
            assert(answered.around().mem == s.around().mem && answered.around().free
                == s.around().free.difference(area(paddr as int, PAGE_SIZE_4K as int)));
            lemma_allocated(w, before, s, m, paddr, answered);
            if g.in_memory {
                let zero = Effect::Zero { paddr, len: PAGE_SIZE_4K };
                let effects = seq![zero];
                assert(effects.drop_last() =~= Seq::<Effect>::empty());
                let after = answered.all_performed(effects);
                assert(after == answered.performed(zero));
                lemma_filled(w, before, answered, m, page, after);
                lemma_bring_lands(f, w, va, before, answered, cache, effects, page);
            }
        },
        (FetchState::AwaitRead, Reply::Done) => {
            assert(answered.table == s.table && answered.free == s.free) by {
                assert(answered.around().free == s.around().free);
            }
            assert forall|a: int|
                !(g.fresh.paddr <= a < g.fresh.paddr + PAGE_SIZE_4K) implies #[trigger] answered.mem[a]
                == s.mem[a] by {
                assert(answered.around().mem[a] == s.mem[a]);
            }
            lemma_filled(w, before, s, m, g.fresh, answered);
            lemma_bring_lands(f, w, va, before, answered, cache, Seq::empty(), g.fresh);
        },
        (FetchState::AwaitRead, Reply::Failed(_)) => {
            let free = Effect::FreePage(g.fresh);
            let effects = seq![free];
            assert(effects.drop_last() =~= Seq::<Effect>::empty());
            assert(effects + Seq::<Effect>::empty() =~= effects);
            let after = s.all_performed(effects);
            assert(after == s.performed(free));
            lemma_given_up(w, before, s, m, g.fresh, after);
        },
        _ => {},
    }
}

/// The population maps the page.
proof fn lemma_bring_maps(
    f: FilePopulateView,
    w: FileWindow,
    va: usize,
    before: Space,
    s: Space,
    cache: CacheView,
    request: Request,
    reply: Reply,
    answered: Space,
)
    requires
        w.ok(),
        bring_waits(f, w, va, before, s, cache, request),
        f.state is AwaitMap,
        f.awaits(cache, reply),
        answered_by_all(s, request, reply, answered, true),
    ensures
        bring_steps(f.after(cache, reply), w, va, before, answered),
{
    reveal(FilePopulateView::after);
    lemma_brings(f, w, va);
    assert(answered.all_performed(Seq::empty()) == answered);
    let p = number(va);
    if reply is Done {
        assert(same_block(p, p, PageSize::Size4K));
        assert(!s.table.dom().contains(p));
        lemma_one_mapped(w, before, s, page_map(cache.pages), p, f.map_flags());
        lemma_passed(f, cache, w, va, before, answered, PAGE_SIZE_4K as int, f.map_flags());
    }
}

/// A step of the population of a single page.
proof fn lemma_brings_on(
    f: FilePopulateView,
    w: FileWindow,
    va: usize,
    before: Space,
    s: Space,
    cache: CacheView,
    request: Request,
    reply: Reply,
    answered: Space,
)
    requires
        w.ok(),
        bring_waits(f, w, va, before, s, cache, request),
        f.awaits(cache, reply),
        !cache.full(),
        answered_by_all(s, request, reply, answered, true),
    ensures
        bring_steps(f.after(cache, reply), w, va, before, answered),
{
    match f.state {
        FilePopulateState::Fetching => {
            lemma_bring_fetches(f, w, va, before, s, cache, request, reply, answered);
        },
        FilePopulateState::AwaitMap => {
            lemma_bring_maps(f, w, va, before, s, cache, request, reply, answered);
        },
        FilePopulateState::AwaitLen => {
            assert(answered.around() == s.around() && answered.table == s.table);
            assert(answered.copy == s.copy);
            assert(answered == s);
            lemma_bring_looks(f, w, va, before, s, cache, reply);
        },
        _ => {
            assert(answered == s);
            if reply == Reply::Fault(PagingError::NotMapped) {
                reveal(FilePopulateView::after);
                lemma_bring_seeks(f, w, va, before, s, cache);
            } else {
                lemma_bring_looks(f, w, va, before, s, cache, reply);
            }
        },
    }
}

impl FileWindow {
    /// Whether nothing that was mapped is different, nor memory that belonged to
    /// anybody.
    pub open spec fn intact(self, before: Space, s: Space) -> bool {
        &&& self.aside(before, s)
        &&& forall|p: int| #[trigger]
            before.table.dom().contains(p) && within(self.range, p) ==> kept(
                s.table,
                before.table,
                p,
            )
    }

    /// Whether a place holds the bytes that a small page of the window read.
    pub open spec fn holds_page(self, before: Space, s: Space, paddr: usize, p: int) -> bool {
        forall|i: int|
            0 <= i < PAGE_SIZE_4K ==> #[trigger] s.mem[paddr + (p - self.first()) * PAGE_SIZE_4K + i]
                == before.mem[before.table[p].paddr + i]
    }

    /// Whether a huge page holds the bytes that the mapped pages of the window
    /// read.
    pub open spec fn collected(self, before: Space, s: Space, paddr: usize) -> bool {
        &&& self.intact(before, s)
        &&& paddr + PAGE_SIZE_2M <= usize::MAX
        &&& forall|p: int| #[trigger]
            before.table.dom().contains(p) && within(self.range, p) ==> self.holds_page(
                before,
                s,
                paddr,
                p,
            )
    }

    /// Whether no mapped page of the window lies in memory that belongs to nobody.
    pub open spec fn occupied(self, s: Space) -> bool {
        forall|p: int, i: int|
            #![trigger s.table.dom().contains(p), s.free.contains(s.table[p].paddr + i)]
            s.table.dom().contains(p) && within(self.range, p) && 0 <= i < PAGE_SIZE_4K
                ==> !s.free.contains(s.table[p].paddr + i)
    }
}

/// The merge collects the bytes of the window.
proof fn lemma_collected(
    w: FileWindow,
    before: Space,
    mid: Space,
    s: Space,
    m: Map<u32, PageCache>,
    paddr: usize,
)
    requires
        w.ok(),
        w.occupied(before),
        w.grown(before, mid, m),
        w.gathered(mid, s, m, paddr),
    ensures
        w.collected(before, s, paddr),
{
    assert forall|a: int| !before.free.contains(a) implies #[trigger] s.mem[a] == before.mem[a] by {
        if paddr <= a < paddr + PAGE_SIZE_2M {
            assert(area(paddr as int, PAGE_SIZE_2M as int).contains(a));
            assert(mid.free.contains(a));
        }
        assert(mid.mem[a] == before.mem[a]);
    }
    assert forall|p: int| !within(w.range, p) implies #[trigger] kept(s.table, before.table, p) by {
        assert(kept(mid.table, before.table, p));
    }
    assert forall|p: int| #[trigger] before.table.dom().contains(p) && within(w.range, p) implies kept(
        s.table,
        before.table,
        p,
    ) && w.holds_page(before, s, paddr, p) by {
        assert(kept(mid.table, before.table, p));
        assert(mid.table.dom().contains(p));
        lemma_in_window(w, p);
        let pn = w.pn(p);
        assert(m.dom().contains(pn));
        assert forall|i: int| 0 <= i < PAGE_SIZE_4K implies #[trigger] s.mem[paddr + (p - w.first())
            * PAGE_SIZE_4K + i] == before.mem[before.table[p].paddr + i] by {
            let x = (p - w.first()) * PAGE_SIZE_4K + i;
            assert(paddr + (p - w.first()) * PAGE_SIZE_4K + i == paddr + x);
            assert(s.mem[paddr + x] == mid.mem[m[pn].paddr + (x - (pn - w.start_pn) * PAGE_SIZE_4K)]);
            assert(!before.free.contains(before.table[p].paddr + i));
            assert(mid.mem[before.table[p].paddr + i] == before.mem[before.table[p].paddr + i]);
        }
    }
}

/// A huge page that holds the bytes of the window is mapped.
proof fn lemma_collected_mapped(
    w: FileWindow,
    before: Space,
    s: Space,
    paddr: usize,
    flags: MappingFlags,
)
    requires
        w.ok(),
        w.collected(before, s, paddr),
        first_rights(before.table, w.first(), THP_NR_4K_PAGES as int) == Some(flags),
    ensures
        w.merged(
            before,
            Space {
                table: placed(s.table, w.first(), paddr as int, PageSize::Size2M, flags),
                ..s
            },
        ),
{
    let t = placed(s.table, w.first(), paddr as int, PageSize::Size2M, flags);
    let after = Space { table: t, ..s };
    assert forall|p: int| within(w.range, p) implies #[trigger] w.in_huge(before, t, p) by {
        lemma_in_window(w, p);
        lemma_in_window(w, w.first());
    }
    assert forall|p: int| #[trigger] before.table.dom().contains(p) && within(w.range, p) implies w.reads_alike(
        before,
        after,
        p,
    ) by {
        lemma_in_window(w, p);
        assert(w.holds_page(before, s, paddr, p));
        assert forall|i: int| 0 <= i < PAGE_SIZE_4K implies #[trigger] after.mem[after.table[p].paddr + i]
            == before.mem[before.table[p].paddr + i] by {
            assert(after.table[p].paddr + i == paddr + (p - w.first()) * PAGE_SIZE_4K + i);
        }
    }
    assert forall|p: int| !within(w.range, p) implies #[trigger] kept(t, before.table, p) by {
        lemma_in_window(w, p);
        assert(kept(s.table, before.table, p));
    }
}

/// A collapse of a mapped file in its space.
pub struct FileCollapseRun {
    pub machine: FileCollapseView,
    pub cache: CacheView,
    pub space: Space,
    pub turn: Option<Turn<bool>>,
}

/// The collapse after a step, in the space that answered.
pub open spec fn file_collapse_after(r: CacheStep<FileCollapseView, bool>, answered: Space) -> FileCollapseRun {
    FileCollapseRun {
        machine: r.next,
        cache: r.cache,
        space: answered.all_performed(r.effects),
        turn: Some(r.turn),
    }
}

/// Whether a collapse can go from `a` to `b`: it starts, or its request is
/// answered or refused. No page has to leave the cache, and a huge page that is
/// cached can be mapped.
pub open spec fn file_collapse_moves(a: FileCollapseRun, b: FileCollapseRun, trouble: bool) -> bool {
    match a.turn {
        None => b == file_collapse_after(a.machine.after(a.cache, Reply::Start), a.space),
        Some(Turn::Ask(request)) => {
            &&& !a.cache.full()
            &&& exists|reply: Reply, space: Space| #[trigger]
                answered_by_all(a.space, request, reply, space, trouble) && a.machine.awaits(a.cache, reply) && (
                a.machine.state is AwaitReuse ==> reply is Done) && b == file_collapse_after(
                    a.machine.after(a.cache, reply),
                    space,
                )
        },
        Some(Turn::Finished(_)) => false,
    }
}

/// Whether a collapse goes through the given stages.
pub open spec fn file_collapse_runs(stages: Seq<FileCollapseRun>, trouble: bool) -> bool {
    &&& stages.len() > 0
    &&& forall|i: int|
        0 <= i < stages.len() - 1 ==> file_collapse_moves(
            #[trigger] stages[i],
            stages[i + 1],
            trouble,
        )
}

/// Whether a collapse is one of a window, and the pages that it is to bring in are
/// pages of the window.
pub open spec fn of_window(c: FileCollapseView, w: FileWindow) -> bool {
    &&& c.range == w.range
    &&& c.backend.inner.has(w.range)
    &&& c.backend.inner.page_at(w.range.start as int) == w.start_pn
    &&& c.merge.start_pn == w.start_pn
    &&& forall|k: int|
        0 <= k < c.faults.len() ==> (#[trigger] c.faults[k]) as int % PAGE_SIZE_4K as int == 0
            && within(w.range, number(c.faults[k]))
}

/// What holds at every stage of a collapse of a mapped file.
#[verifier::opaque]
pub open spec fn file_collapse_invariant(
    r: FileCollapseRun,
    w: FileWindow,
    m: Map<u32, PageCache>,
    before: Space,
    trouble: bool,
) -> bool {
    let c = r.machine;
    let t = before.table;
    &&& of_window(c, w)
    &&& match r.turn {
        None => {
            &&& c.state is Begin
            &&& c.flags is None
            &&& c.faults.len() == 0
            &&& c.merge.state is Begin
            &&& r.cache.wf()
            &&& page_map(r.cache.pages) == m
            &&& r.space == before
        },
        Some(Turn::Ask(request)) => match c.state {
            FileCollapseState::AwaitEntry => {
                &&& c.pages == page_starts(
                    w.range.start as int,
                    w.range.end as int,
                    PAGE_SIZE_4K as int,
                )
                &&& c.at < 512
                &&& request == (Request::Query { va: c.pages[c.at as int] })
                &&& c.flags == first_rights(t, w.first(), c.at as int)
                &&& c.merge.state is Begin
                &&& w.has_huge(m) || w.plain(m)
                &&& r.cache.wf()
                &&& page_map(r.cache.pages) == m
                &&& r.space == before
            },
            FileCollapseState::AwaitReuse => {
                &&& c.flags is Some
                &&& c.flags == first_rights(t, w.first(), 512)
                &&& w.has_huge(m)
                &&& request == (Request::RemapHuge {
                    va: w.range.start,
                    paddr: m[w.start_pn].paddr,
                    flags: c.flags.unwrap(),
                })
                &&& r.space == before
            },
            FileCollapseState::Populating => {
                &&& c.flags is Some
                &&& c.flags == first_rights(t, w.first(), 512)
                &&& c.at < c.faults.len()
                &&& c.merge.state is Begin
                &&& !w.has_huge(m)
                &&& w.plain(m)
                &&& bring_waits(
                    c.populate,
                    w,
                    c.faults[c.at as int],
                    before,
                    r.space,
                    r.cache,
                    request,
                )
            },
            FileCollapseState::Merging => {
                &&& c.flags is Some
                &&& c.flags == first_rights(t, w.first(), 512)
                &&& request == (Request::AllocPage { bytes: PAGE_SIZE_2M })
                &&& c.merge.state is AwaitPage
                &&& !w.has_huge(m)
                &&& w.plain(m)
                &&& r.cache.wf()
                &&& w.grown(before, r.space, page_map(r.cache.pages))
            },
            FileCollapseState::AwaitRemap => {
                &&& c.flags is Some
                &&& w.has_huge(m) || w.plain(m)
                &&& c.flags == first_rights(t, w.first(), 512)
                &&& request matches Request::RemapHuge { va, paddr, flags } && va == w.range.start
                    && Some(flags) == c.flags && w.collected(before, r.space, paddr)
            },
            _ => false,
        },
        Some(Turn::Finished(Ok(true))) => w.merged(before, r.space) && (w.has_huge(m) || w.plain(m)),
        Some(Turn::Finished(result)) => {
            &&& w.intact(before, r.space)
            &&& result is Err ==> trouble
            &&& result is Ok && apart(m) ==> first_rights(t, w.first(), 512) is None || !(
            w.has_huge(m) || w.plain(m))
        },
    }
}

/// The collapse turns to a missing page, or to the merge.
proof fn lemma_faulting(
    c: FileCollapseView,
    w: FileWindow,
    m: Map<u32, PageCache>,
    before: Space,
    s: Space,
    cache: CacheView,
    trouble: bool,
)
    requires
        w.ok(),
        of_window(c, w),
        c.flags is Some,
        c.flags == first_rights(before.table, w.first(), 512),
        c.merge.state is Begin,
        cache.wf(),
        !w.has_huge(m),
        w.plain(m),
        w.grown(before, s, page_map(cache.pages)),
    ensures
        file_collapse_invariant(file_collapse_after(c.faulting(cache), s), w, m, before, trouble),
{
    reveal(file_collapse_invariant);
    reveal(FileCollapseView::faulting);
    if c.at < c.faults.len() {
        let va = c.faults[c.at as int];
        let f = c.bringing();
        lemma_in_window(w, number(va));
        let bits = c.flags.unwrap().bits;
        assert((bits & !2usize) & 2usize != 2usize) by (bit_vector);
        assert(brings(f, w, va));
        lemma_bring_looks(f, w, va, before, s, cache, Reply::Start);
        assert(s.all_performed(Seq::empty()) == s);
    } else {
        law_merge_begins_with_notices(c.merge, cache, s.around());
        lemma_unchanged(c.merge, cache, s);
    }
}

/// The collapse turns to the next page of the window, or to a cached huge page, or
/// to the missing ones.
proof fn lemma_looks(
    c: FileCollapseView,
    w: FileWindow,
    before: Space,
    cache: CacheView,
    trouble: bool,
)
    requires
        w.ok(),
        of_window(c, w),
        c.pages == page_starts(w.range.start as int, w.range.end as int, PAGE_SIZE_4K as int),
        c.at <= 512,
        c.flags == first_rights(before.table, w.first(), c.at as int),
        c.merge.state is Begin,
        cache.wf(),
        w.shown(before, page_map(cache.pages)),
        w.has_huge(page_map(cache.pages)) || w.plain(page_map(cache.pages)),
    ensures
        file_collapse_invariant(
            file_collapse_after(c.looking(cache), before),
            w,
            page_map(cache.pages),
            before,
            trouble,
        ),
{
    reveal(file_collapse_invariant);
    let m = page_map(cache.pages);
    lemma_window_page(w, 0);
    assert(before.all_performed(Seq::empty()) == before);
    if c.at < c.pages.len() {
    } else if c.flags is None {
    } else {
        let start = w.start_pn;
        let t = FileCollapseView { at: 0, ..c };
        let used = cache.with_pages(touched(cache.pages, start));
        lemma_lookup_map(cache.pages, start);
        lemma_touched(cache.pages, start);
        assert(page_map(used.pages) == m);
        assert(used.wf());
        if w.has_huge(m) {
            assert(lookup(cache.pages, start) == Some(m[start]));
        } else {
            assert(w.grown(before, before, m));
            lemma_faulting(t, w, m, before, before, used, trouble);
        }
    }
}

/// The search for a huge page across an end of the window changes the order of the
/// pages alone.
proof fn lemma_clash_order(s: Seq<(u32, PageCache)>, m: Map<u32, PageCache>, pn: int, start: int, end: int)
    requires
        distinct(s),
        page_map(s) == m,
        0 <= pn,
        end <= u32::MAX,
    ensures
        ({
            let r = clash_from(s, m, pn, start, end).0;
            distinct(r) && page_map(r) == m && r.len() == s.len()
        }),
    decreases end - pn,
{
    if pn >= end {
    } else {
        lemma_chunk_order(s, m, 0, pn);
        lemma_clash_order(chunk_order(s, m, 0, pn), m, pn + 1, start, end);
    }
}

/// The chunk with a page of a cached huge page in it is that huge page.
proof fn lemma_huge_chunk(m: Map<u32, PageCache>, at: int, q: u32, pn: int)
    requires
        apart(m),
        m.dom().contains(q),
        m[q].size == PAGE_SIZE_2M,
        0 <= at <= q <= pn < q + THP_NR_4K_PAGES,
    ensures
        chunk_from(m, at, pn) == (Some(q), PAGE_SIZE_2M),
    decreases q - at,
{
    if at < q {
        let a = at as u32;
        if m.dom().contains(a) {
            assert(m.dom().contains(q));
            assert(a + step(m, a as int) <= q);
        }
        lemma_huge_chunk(m, at + step(m, at), q, pn);
    }
}

/// A page that lies in a cached huge page across an end is found.
proof fn lemma_clash_found(
    s: Seq<(u32, PageCache)>,
    m: Map<u32, PageCache>,
    pn: int,
    start: int,
    end: int,
    at: int,
)
    requires
        pn <= at < end,
        clashes(chunk_from(m, 0, at), start, end),
    ensures
        clash_from(s, m, pn, start, end).1,
    decreases end - pn,
{
    if !clashes(chunk_from(m, 0, pn), start, end) {
        lemma_clash_found(chunk_order(s, m, 0, pn), m, pn + 1, start, end, at);
    }
}

/// A huge page that is cached across an end of the window is found.
proof fn lemma_clash(w: FileWindow, s: Seq<(u32, PageCache)>, m: Map<u32, PageCache>)
    requires
        apart(m),
        !w.has_huge(m),
        !w.plain(m),
    ensures
        clash_from(
            s,
            m,
            w.start_pn as int,
            w.start_pn as int,
            w.start_pn + THP_NR_4K_PAGES,
        ).1,
{
    let start = w.start_pn;
    let q = choose|q: u32| #[trigger]
        m.dom().contains(q) && m[q].size == PAGE_SIZE_2M && !(q + THP_NR_4K_PAGES <= start || start
            + THP_NR_4K_PAGES <= q);
    let at = if q < start {
        start as int
    } else {
        q as int
    };
    lemma_huge_chunk(m, 0, q, at);
    lemma_clash_found(s, m, start as int, start as int, start + THP_NR_4K_PAGES, at);
}

/// Without a huge page across an end of the window none is found.
proof fn lemma_no_clash(w: FileWindow, s: Seq<(u32, PageCache)>, m: Map<u32, PageCache>, pn: int)
    requires
        w.ok(),
        apart(m),
        pages_ok(m),
        w.has_huge(m) || w.plain(m),
        w.start_pn <= pn,
    ensures
        !clash_from(
            s,
            m,
            pn,
            w.start_pn as int,
            w.start_pn + THP_NR_4K_PAGES,
        ).1,
    decreases w.start_pn + THP_NR_4K_PAGES - pn,
{
    if pn < w.start_pn + THP_NR_4K_PAGES {
        if w.has_huge(m) {
            lemma_huge_chunk(m, 0, w.start_pn, pn);
        } else {
            lemma_plain_chunk(w, m, 0, pn as u32);
        }
        lemma_no_clash(w, chunk_order(s, m, 0, pn), m, pn + 1);
    }
}

/// A collapse starts.
proof fn lemma_file_collapse_starts(
    a: FileCollapseRun,
    w: FileWindow,
    m: Map<u32, PageCache>,
    before: Space,
    trouble: bool,
)
    requires
        w.ok(),
        w.shown(before, m),
        file_collapse_invariant(a, w, m, before, trouble),
        a.turn is None,
    ensures
        file_collapse_invariant(
            file_collapse_after(a.machine.after(a.cache, Reply::Start), a.space),
            w,
            m,
            before,
            trouble,
        ),
{
    reveal(file_collapse_invariant);
    reveal(FileCollapseView::after);
    let c = a.machine;
    let start = c.start_pn();
    let end = c.end_pn();
    assert(end == start + 512);
    lemma_clash_order(a.cache.pages, m, start, start, end);
    let cache = a.cache.with_pages(clash_from(a.cache.pages, m, start, start, end).0);
    assert(cache.wf());
    lemma_window_page(w, 0);
    assert(before.all_performed(Seq::empty()) == before);
    let next = FileCollapseView {
        pages: page_starts(w.range.start as int, w.range.end as int, PAGE_SIZE_4K as int),
        at: 0,
        ..c
    };
    assert(w.aside(before, before));
    if !w.has_huge(m) && !w.plain(m) {
        lemma_clash(w, a.cache.pages, m);
    } else {
        if apart(m) {
            lemma_no_clash(w, a.cache.pages, m, start);
        }
        lemma_looks(next, w, before, cache, trouble);
    }
}

/// A page of the window is looked at.
proof fn lemma_file_looked_at(
    a: FileCollapseRun,
    request: Request,
    reply: Reply,
    w: FileWindow,
    m: Map<u32, PageCache>,
    before: Space,
    trouble: bool,
)
    requires
        w.ok(),
        w.shown(before, m),
        file_collapse_invariant(a, w, m, before, trouble),
        a.turn == Some(Turn::<bool>::Ask(request)),
        a.machine.state is AwaitEntry,
        a.machine.awaits(a.cache, reply),
        answered_by_all(before, request, reply, before, trouble),
    ensures
        file_collapse_invariant(
            file_collapse_after(a.machine.after(a.cache, reply), before),
            w,
            m,
            before,
            trouble,
        ),
{
    reveal(file_collapse_invariant);
    reveal(FileCollapseView::after);
    let c = a.machine;
    let t = before.table;
    let va = c.pages[c.at as int];
    let p = w.first() + c.at;
    lemma_window_page(w, c.at as int);
    lemma_in_window(w, p);
    assert(before.all_performed(Seq::empty()) == before);
    assert(w.intact(before, before));
    if let Reply::Entry { paddr: _, flags, size: _ } = reply {
        assert(t.dom().contains(p) && flags == t[p].flags);
        let next = FileCollapseView {
            flags: if c.flags is None {
                Some(flags)
            } else {
                c.flags
            },
            at: c.at + 1,
            ..c
        };
        lemma_looks(next, w, before, a.cache, trouble);
    } else if reply == Reply::Fault(PagingError::NotMapped) {
        assert(!t.dom().contains(p));
        let faults = if c.fault_in {
            c.faults.push(va)
        } else {
            c.faults
        };
        let next = FileCollapseView { faults, at: c.at + 1, ..c };
        assert forall|k: int| 0 <= k < faults.len() implies (#[trigger] faults[k]) as int
            % PAGE_SIZE_4K as int == 0 && within(w.range, number(faults[k])) by {
            if k < c.faults.len() {
                assert(faults[k] == c.faults[k]);
            }
        }
        lemma_looks(next, w, before, a.cache, trouble);
    }
}

/// A step of the population of a missing page.
proof fn lemma_file_populates(
    a: FileCollapseRun,
    request: Request,
    reply: Reply,
    answered: Space,
    w: FileWindow,
    m: Map<u32, PageCache>,
    before: Space,
    trouble: bool,
)
    requires
        w.ok(),
        file_collapse_invariant(a, w, m, before, trouble),
        a.turn == Some(Turn::<bool>::Ask(request)),
        a.machine.state is Populating,
        a.machine.awaits(a.cache, reply),
        !a.cache.full(),
        answered_by_all(a.space, request, reply, answered, trouble),
    ensures
        file_collapse_invariant(
            file_collapse_after(a.machine.after(a.cache, reply), answered),
            w,
            m,
            before,
            trouble,
        ),
{
    reveal(file_collapse_invariant);
    reveal(FileCollapseView::after);
    let c = a.machine;
    let va = c.faults[c.at as int];
    let s = c.populate.after(a.cache, reply);
    lemma_brings_on(c.populate, w, va, before, a.space, a.cache, request, reply, answered);
    let t = FileCollapseView {
        populate: s.next,
        state: FileCollapseState::Populating,
        ..c
    };
    match s.turn {
        Turn::Ask(_) => {},
        Turn::Finished(result) => {
            let next = if result is Ok {
                FileCollapseView {
                    to_be_evicted: c.to_be_evicted + s.next.to_be_evicted,
                    at: c.at + 1,
                    ..t
                }
            } else {
                FileCollapseView { at: c.at + 1, ..t }
            };
            let mid = answered.all_performed(s.effects);
            lemma_faulting(next, w, m, before, mid, s.cache, trouble);
            lemma_performed_behind(answered, s.effects, next.faulting(s.cache).effects);
            assert(c.after(a.cache, reply) == next.faulting(s.cache).behind(s.effects));
        },
    }
}

/// A huge page is mapped over the window, or the pages of the window are merged.
proof fn lemma_file_huge_page(
    a: FileCollapseRun,
    request: Request,
    reply: Reply,
    answered: Space,
    w: FileWindow,
    m: Map<u32, PageCache>,
    before: Space,
    trouble: bool,
)
    requires
        w.ok(),
        w.shown(before, m),
        pages_ok(m),
        file_collapse_invariant(a, w, m, before, trouble),
        a.turn == Some(Turn::<bool>::Ask(request)),
        !(a.machine.state is AwaitEntry || a.machine.state is Populating),
        a.machine.state is AwaitReuse ==> reply is Done,
        a.machine.awaits(a.cache, reply),
        answered_by_all(a.space, request, reply, answered, trouble),
    ensures
        file_collapse_invariant(
            file_collapse_after(a.machine.after(a.cache, reply), answered),
            w,
            m,
            before,
            trouble,
        ),
{
    reveal(FileCollapseView::after);
    reveal(file_collapse_invariant);
    let c = a.machine;
    assert(a.space.all_performed(Seq::empty()) == a.space);
    assert(answered.all_performed(Seq::empty()) == answered);
    match c.state {
        FileCollapseState::AwaitReuse => {
            lemma_reused(w, before, m, c.flags.unwrap());
        },
        FileCollapseState::Merging => {
            if let Reply::Addr(paddr) = reply {
                lemma_occupied(w, before, m);
                lemma_file_merges(a, answered, paddr, w, before);
            }
        },
        FileCollapseState::AwaitRemap => {
            if reply is Done {
                let paddr = request->RemapHuge_paddr;
                lemma_collected_mapped(w, before, a.space, paddr, c.flags.unwrap());
            }
        },
        _ => {},
    }
}

/// A stage of a collapse of a mapped file is followed by a stage of it.
pub proof fn lemma_file_collapse_moves(
    a: FileCollapseRun,
    b: FileCollapseRun,
    w: FileWindow,
    m: Map<u32, PageCache>,
    before: Space,
    trouble: bool,
)
    requires
        w.ok(),
        w.shown(before, m),
        pages_ok(m),
        file_collapse_invariant(a, w, m, before, trouble),
        file_collapse_moves(a, b, trouble),
    ensures
        file_collapse_invariant(b, w, m, before, trouble),
{
    let c = a.machine;
    match a.turn {
        None => {
            lemma_file_collapse_starts(a, w, m, before, trouble);
        },
        Some(Turn::Ask(request)) => {
            let (reply, answered) = choose|reply: Reply, s: Space| #[trigger]
                answered_by_all(a.space, request, reply, s, trouble) && a.machine.awaits(a.cache, reply) && (
                a.machine.state is AwaitReuse ==> reply is Done) && b == file_collapse_after(
                    a.machine.after(a.cache, reply),
                    s,
                );
            if c.state is AwaitEntry {
                assert(a.space == before) by {
                    reveal(file_collapse_invariant);
                }
                assert(answered == before);
                lemma_file_looked_at(a, request, reply, w, m, before, trouble);
            } else if c.state is Populating {
                lemma_file_populates(a, request, reply, answered, w, m, before, trouble);
            } else {
                lemma_file_huge_page(a, request, reply, answered, w, m, before, trouble);
            }
        },
        Some(Turn::Finished(_)) => {},
    }
}

/// The memory of small pages that are cached belongs to somebody.
proof fn lemma_occupied(w: FileWindow, s: Space, m: Map<u32, PageCache>)
    requires
        pages_ok(m),
        w.shown(s, m),
        !w.has_huge(m),
        w.plain(m),
    ensures
        w.occupied(s),
{
    assert forall|p: int, i: int|
        #![trigger s.table.dom().contains(p), s.free.contains(s.table[p].paddr + i)]
        s.table.dom().contains(p) && within(w.range, p) && 0 <= i < PAGE_SIZE_4K implies !s.free.contains(
        s.table[p].paddr + i,
    ) by {
        let page = m[w.pn(p)];
        assert(m.dom().contains(w.pn(p)));
        assert(page.wf());
        assert(owned(s.around(), page));
        assert(!s.around().free.contains(page.paddr + i));
    }
}

/// A cached huge page is mapped as it is.
proof fn lemma_reused(w: FileWindow, before: Space, m: Map<u32, PageCache>, flags: MappingFlags)
    requires
        w.ok(),
        w.has_huge(m),
        w.shows_huge(before.table, m),
        first_rights(before.table, w.first(), THP_NR_4K_PAGES as int) == Some(flags),
        m[w.start_pn].paddr + PAGE_SIZE_2M <= usize::MAX,
    ensures
        w.merged(
            before,
            Space {
                table: placed(
                    before.table,
                    w.first(),
                    m[w.start_pn].paddr as int,
                    PageSize::Size2M,
                    flags,
                ),
                ..before
            },
        ),
{
    let paddr = m[w.start_pn].paddr;
    assert forall|p: int| #[trigger] before.table.dom().contains(p) && within(w.range, p) implies w.holds_page(
        before,
        before,
        paddr,
        p,
    ) by {
        assert(before.table[p].paddr == paddr + (p - w.first()) * PAGE_SIZE_4K);
    }
    assert(w.collected(before, before, paddr));
    lemma_collected_mapped(w, before, before, paddr, flags);
}

/// The cached pages are merged.
proof fn lemma_file_merges(
    a: FileCollapseRun,
    answered: Space,
    paddr: usize,
    w: FileWindow,
    before: Space,
)
    requires
        w.ok(),
        w.occupied(before),
        a.machine.merge.start_pn == w.start_pn,
        a.machine.merge.state is AwaitPage,
        a.cache.wf(),
        w.grown(before, a.space, page_map(a.cache.pages)),
        answered_by_all(
            a.space,
            Request::AllocPage { bytes: PAGE_SIZE_2M },
            Reply::Addr(paddr),
            answered,
            true,
        ),
    ensures
        ({
            let s = a.machine.merge.after(a.cache, Reply::Addr(paddr));
            &&& s.turn == Turn::Finished(Ok::<usize, AxError>(paddr))
            &&& w.collected(before, answered.all_performed(s.effects), paddr)
        }),
{
    reveal(file_collapse_invariant);
    let m = page_map(a.cache.pages);
    let s = a.machine.merge.after(a.cache, Reply::Addr(paddr));
    assert(a.space.answers(
        Request::AllocPage { bytes: PAGE_SIZE_2M },
        Reply::Addr(paddr),
        answered,
    )) by {
        let there = Space {
            free: a.space.free.difference(area(paddr as int, PAGE_SIZE_2M as int)),
            ..a.space
        };
        assert(answered.around() == there.around());
        assert(answered == there);
    }
    assert(w.small(m)) by {
        assert forall|pn: u32| #[trigger] m.dom().contains(pn) && in_window(w.start_pn, pn) implies m[pn].size
            == PAGE_SIZE_4K by {
            assert(m[pn].wf());
        }
    }
    lemma_gathered(w, a.machine.merge, a.cache, a.space, paddr, answered);
    lemma_collected(w, before, a.space, answered.all_performed(s.effects), m, paddr);
}

proof fn lemma_file_collapse_stages(
    stages: Seq<FileCollapseRun>,
    i: int,
    w: FileWindow,
    m: Map<u32, PageCache>,
    before: Space,
    trouble: bool,
)
    requires
        w.ok(),
        w.shown(before, m),
        pages_ok(m),
        file_collapse_runs(stages, trouble),
        0 <= i < stages.len(),
        file_collapse_invariant(stages[0], w, m, before, trouble),
    ensures
        file_collapse_invariant(stages[i], w, m, before, trouble),
    decreases i,
{
    if i > 0 {
        lemma_file_collapse_stages(stages, i - 1, w, m, before, trouble);
        assert(file_collapse_moves(stages[i - 1], stages[i - 1 + 1], trouble));
        lemma_file_collapse_moves(stages[i - 1], stages[i], w, m, before, trouble);
    }
}

/// A collapse of a window of a mapped file maps it to one huge page in which every
/// address that was mapped reads the byte that it read before, with the rights of
/// the first page that was mapped. All other pages, and memory that belonged to
/// anybody, are as they were. It does so unless no page of the window is there, a
/// huge page is cached across an end of the window, or a request is refused; then
/// every page that was mapped is mapped as it was. This holds also where missing
/// pages are brought in, as long as no page has to leave the cache.
pub proof fn law_file_collapse_keeps_the_contents(
    b: FileBackend,
    fault_in: bool,
    c: FileCollapse,
    stages: Seq<FileCollapseRun>,
    w: FileWindow,
    cache: CacheView,
    before: Space,
    trouble: bool,
)
    requires
        w.ok(),
        w.start_pn * 4096 == b.inner.offset_page * 4096 + (w.range.start - b.inner.start),
        call_ensures(FileBackend::collapse_page, (&b, w.range, fault_in), c),
        cache.wf(),
        w.shown(before, page_map(cache.pages)),
        file_collapse_runs(stages, trouble),
        stages[0] == (FileCollapseRun { machine: c@, cache, space: before, turn: None }),
    ensures
        stages.last().turn matches Some(Turn::Finished(result)) ==> {
            let m = page_map(cache.pages);
            let some = first_rights(before.table, w.first(), THP_NR_4K_PAGES as int) is Some && (
            w.has_huge(m) || w.plain(m));
            let after = stages.last().space;
            &&& result is Err ==> trouble
            &&& result is Ok && apart(m) ==> result == Ok::<bool, AxError>(some)
            &&& result == Ok::<bool, AxError>(true) ==> some && w.merged(before, after)
            &&& result != Ok::<bool, AxError>(true) ==> w.intact(before, after)
        },
{
    reveal(file_collapse_invariant);
    let m = page_map(cache.pages);
    assert((w.range.start - b.inner.start) / 4096 == w.start_pn - b.inner.offset_page);
    lemma_file_collapse_stages(stages, stages.len() - 1, w, m, before, trouble);
    if stages.last().turn == Some(Turn::Finished(Ok::<bool, AxError>(true))) {
        assert(w.in_huge(before, stages.last().space.table, w.first())) by {
            lemma_in_window(w, w.first());
        }
    }
}

} // verus!
