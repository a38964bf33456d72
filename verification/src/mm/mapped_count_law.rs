//! A population of a mapped file or of shared memory counts the pages that
//! satisfy the access, and ends.

use vstd::prelude::*;
use crate::addr::{PageSize, VirtAddrRange, PAGE_SIZE_2M, PAGE_SIZE_4K};
use crate::effect::{Reply, Request, Turn};
use crate::error::PagingError;
use crate::flags::MappingFlags;
use crate::fs::cache::{pages_ok, CacheView};
use crate::fs::cached_file::CachedFile;
use crate::fs::chunks::{chunk_from, covers, step};
use crate::fs::evict::EvictState;
use crate::fs::fetch::{FetchState, PageFetch};
use crate::fs::page::{is_cache_page_size, PageCache};
use crate::fs::recency::page_map;
use crate::mm::file::FileBackend;
use crate::mm::file_populate::{FilePopulate, FilePopulateState, FilePopulateView};
use crate::mm::mapped_unmap_law::lemma_table_kept;
use crate::mm::shared::{CacheStep, SharedBackend};
use crate::mm::shared_populate::{fits_whole, table_size, PopulateState, SharedPopulate};
use crate::mm::space::{
    leads, lemma_block_at, lemma_leader, lemma_placed, number, placed, refused, same_block,
    small_pages, table_ok, tiled, vacant, within, PageEntry, Space,
};

verus! {

/// Whether a page of the page table, or the part of one that lies in a range,
/// starts with a small page.
pub open spec fn starts(t: Map<int, PageEntry>, range: VirtAddrRange, p: int) -> bool {
    p == number(range.start) || leads(p, t[p].size)
}

/// The pages of a range below an address that satisfy an access, each by its
/// first small page.
pub open spec fn satisfied(
    t: Map<int, PageEntry>,
    range: VirtAddrRange,
    va: int,
    access: MappingFlags,
) -> Set<int> {
    Set::new(
        |p: int|
            t.dom().contains(p) && within(range, p) && p * PAGE_SIZE_4K < va && starts(t, range, p)
                && t[p].flags.contains(access),
    )
}

/// Whether no page of the page table lies on both sides of an address.
pub open spec fn edge(t: Map<int, PageEntry>, range: VirtAddrRange, va: int) -> bool {
    let p = va / PAGE_SIZE_4K as int;
    t.dom().contains(p) ==> starts(t, range, p)
}

/// What a population of a mapping is asked for.
pub struct MappedWish {
    pub range: VirtAddrRange,
    /// The rights with which pages are mapped, and those with which a page is
    /// mapped that is to be written but may not be.
    pub first: MappingFlags,
    pub flags: MappingFlags,
    pub access: MappingFlags,
}

impl MappedWish {
    /// Whether a page with the given rights is to be written but may not be.
    pub open spec fn upgrades(self, flags: MappingFlags) -> bool {
        self.access.writable() && !flags.writable()
    }

    /// Whether the range is one of small pages, the page table has small and huge
    /// pages in it, and a huge one that is to be written but may not be lies in it
    /// whole.
    pub open spec fn ok(self, t: Map<int, PageEntry>) -> bool {
        &&& self.range.low(PageSize::Size2M)
        &&& self.range.aligned_to(PageSize::Size4K)
        &&& table_ok(t)
        &&& tiled(t, self.range, PageSize::Size4K)
        &&& forall|p: int, q: int|
            #![trigger t.dom().contains(p), same_block(p, q, PageSize::Size2M)]
            t.dom().contains(p) && within(self.range, p) && t[p].size is Size2M && self.upgrades(
                t[p].flags,
            ) && same_block(p, q, PageSize::Size2M) ==> within(self.range, q)
    }

    /// Whether a population has come to an address.
    #[verifier::opaque]
    pub open spec fn reached(
        self,
        t: Map<int, PageEntry>,
        t0: Map<int, PageEntry>,
        va: int,
        pages: int,
    ) -> bool {
        &&& self.range.start <= va
        &&& va % PAGE_SIZE_4K as int == 0
        &&& table_ok(t)
        &&& edge(t, self.range, va)
        &&& pages == satisfied(t, self.range, va, self.access).len()
        &&& filled(t, t0, self.range, va)
    }
}

/// Whether all small pages of a range below an address are mapped, those that were
/// mapped before to the same memory, and everything else is mapped as it was.
pub open spec fn filled(
    t: Map<int, PageEntry>,
    t0: Map<int, PageEntry>,
    range: VirtAddrRange,
    va: int,
) -> bool {
    forall|p: int|
        if within(range, p) && p * PAGE_SIZE_4K < va {
            #[trigger] t.dom().contains(p) && (t0.dom().contains(p) ==> t[p].paddr == t0[p].paddr)
        } else {
            kept(t, t0, p)
        }
}

/// Whether a small page is mapped as it was.
pub open spec fn kept(t: Map<int, PageEntry>, t0: Map<int, PageEntry>, p: int) -> bool {
    &&& t.dom().contains(p) == t0.dom().contains(p)
    &&& t.dom().contains(p) ==> t[p] == t0[p]
}

/// The pages that satisfy an access are finitely many.
proof fn lemma_satisfied_finite(
    t: Map<int, PageEntry>,
    range: VirtAddrRange,
    va: int,
    access: MappingFlags,
)
    requires
        0 <= va,
    ensures
        satisfied(t, range, va, access).finite(),
        satisfied(t, range, va, access).len() <= va,
{
    let all = vstd::set_lib::set_int_range(0, va);
    vstd::set_lib::lemma_int_range(0, va);
    let u = satisfied(t, range, va, access);
    assert(u.subset_of(all)) by {
        assert forall|p: int| u.contains(p) implies #[trigger] all.contains(p) by {
            assert(within(range, p));
        }
    }
    vstd::set_lib::lemma_len_subset(u, all);
}

/// A small page that does not start a page lies in one with the small page before
/// it.
proof fn lemma_before(q: int, size: PageSize)
    requires
        !leads(q, size),
    ensures
        same_block(q, q - 1, size),
        same_block(q - 1, q, size),
{
    match size {
        PageSize::Size4K => {
            assert(small_pages(size) == 1);
            assert(q % 1 == 0);
        },
        PageSize::Size2M => {
            assert(small_pages(size) == 512);
            assert(q % 512 != 0);
            assert((q - 1) / 512 == q / 512);
        },
        PageSize::Size1G => {
            assert(small_pages(size) == 262_144);
            assert(q % 262_144 != 0);
            assert((q - 1) / 262_144 == q / 262_144);
        },
    }
}

/// The page at an address is added to those below it, if it satisfies the access.
proof fn lemma_one_more(
    t: Map<int, PageEntry>,
    u: Map<int, PageEntry>,
    range: VirtAddrRange,
    va: int,
    next: int,
    access: MappingFlags,
)
    requires
        table_ok(u),
        0 <= range.start <= va < range.end,
        va < next,
        va % PAGE_SIZE_4K as int == 0,
        next % PAGE_SIZE_4K as int == 0,
        u.dom().contains(va / PAGE_SIZE_4K as int),
        edge(u, range, va),
        ({
            let p = va / PAGE_SIZE_4K as int;
            &&& forall|q: int|
                va <= q * PAGE_SIZE_4K < next ==> #[trigger] same_block(p, q, u[p].size)
            &&& !same_block(p, next / PAGE_SIZE_4K as int, u[p].size)
        }),
        forall|q: int| q * PAGE_SIZE_4K < va ==> #[trigger] kept(u, t, q),
    ensures
        satisfied(u, range, next, access).len() == satisfied(t, range, va, access).len() + if u[va
            / PAGE_SIZE_4K as int].flags.contains(access) {
            1int
        } else {
            0
        },
        edge(u, range, next),
{
    let p = va / PAGE_SIZE_4K as int;
    let n = next / PAGE_SIZE_4K as int;
    let below = satisfied(t, range, va, access);
    let now = satisfied(u, range, next, access);
    lemma_satisfied_finite(t, range, va, access);
    assert forall|q: int| #[trigger] now.contains(q) == (below.contains(q) || (q == p
        && u[p].flags.contains(access))) by {
        if q * PAGE_SIZE_4K < va {
            assert(kept(u, t, q));
        } else if q * PAGE_SIZE_4K < next && q != p {
            assert(same_block(p, q, u[p].size));
            if u.dom().contains(q) && leads(q, u[q].size) {
                assert(u[q].size == u[p].size);
                lemma_leader(q, p, u[q].size);
            }
        }
    }
    if u[p].flags.contains(access) {
        assert(now =~= below.insert(p));
        assert(!below.contains(p));
    } else {
        assert(now =~= below);
    }
    if u.dom().contains(n) && !leads(n, u[n].size) {
        lemma_before(n, u[n].size);
        assert(same_block(n, n - 1, u[n].size));
        assert(u.dom().contains(n - 1) && u[n - 1].size == u[n].size);
        assert(va <= (n - 1) * PAGE_SIZE_4K < next);
        assert(same_block(p, n - 1, u[p].size));
        assert(u[n - 1].size == u[p].size);
    }
}

/// The part behind an address of the page around it.
proof fn lemma_rest_block(va: usize, size: PageSize)
    requires
        va as int % PAGE_SIZE_4K as int == 0,
        !(size is Size1G),
    ensures
        ({
            let next = va + (size.bytes() - va as int % size.bytes() as int);
            &&& va < next <= va + PAGE_SIZE_2M
            &&& next % PAGE_SIZE_4K as int == 0
            &&& forall|q: int|
                va <= q * PAGE_SIZE_4K < next ==> #[trigger] same_block(number(va), q, size)
            &&& !same_block(number(va), next / PAGE_SIZE_4K as int, size)
        }),
{
    let p = number(va);
    let rest = size.bytes() - va as int % size.bytes() as int;
    let next = va + rest;
    match size {
        PageSize::Size4K => {
            assert(va as int % 4096 == 0);
            assert(rest == 4096);
            assert(small_pages(size) == 1);
            assert forall|q: int| va <= q * PAGE_SIZE_4K < next implies #[trigger] same_block(
                p,
                q,
                size,
            ) by {
                assert(q == p);
            }
            assert(next / 4096 == p + 1);
            assert((p + 1) / 1 == p + 1 && p / 1 == p);
        },
        PageSize::Size2M => {
            assert(small_pages(size) == 512);
            let m = va as int % 2_097_152;
            assert(rest == 2_097_152 - m);
            assert(next % 2_097_152 == 0);
            assert(next % 4096 == 0);
            assert(next / 4096 % 512 == 0);
            assert(p / 512 == next / 4096 / 512 - 1);
            assert forall|q: int| va <= q * PAGE_SIZE_4K < next implies #[trigger] same_block(
                p,
                q,
                size,
            ) by {
                assert(p <= q < next / 4096);
                assert(q / 512 == p / 512);
            }
        },
        PageSize::Size1G => {},
    }
}

/// A page that is there is passed.
proof fn lemma_pass(
    w: MappedWish,
    t: Map<int, PageEntry>,
    t0: Map<int, PageEntry>,
    va: usize,
    pages: int,
)
    requires
        w.ok(t0),
        w.reached(t, t0, va as int, pages),
        va < w.range.end,
        t.dom().contains(number(va)),
    ensures
        ({
            let e = t[number(va)];
            let next = va + (e.size.bytes() - va as int % e.size.bytes() as int);
            &&& !(e.size is Size1G)
            &&& w.upgrades(e.flags) && va as int % e.size.bytes() as int == 0 ==> va
                + e.size.bytes() <= w.range.end
            &&& va < next <= va + PAGE_SIZE_2M
            &&& w.reached(
                t,
                t0,
                next,
                pages + if e.flags.contains(w.access) {
                    1int
                } else {
                    0
                },
            )
        }),
{
    reveal(MappedWish::reached);
    let p = number(va);
    let size = t[p].size;
    assert(within(w.range, p));
    assert(kept(t, t0, p));
    assert(w.range.end as int % 4096 == 0);
    if size is Size2M && w.upgrades(t[p].flags) && va as int % size.bytes() as int == 0 {
        lemma_block_at(va, size, p + 511);
        assert(same_block(p, p + 511, PageSize::Size2M));
        assert(within(w.range, p + 511));
        assert(va as int % 2_097_152 == 0);
    }
    let next = va + (size.bytes() - va as int % size.bytes() as int);
    lemma_rest_block(va, size);
    assert forall|q: int| q * PAGE_SIZE_4K < va implies #[trigger] kept(t, t, q) by {}
    lemma_one_more(t, t, w.range, va as int, next, w.access);
    assert(filled(t, t0, w.range, next)) by {
        assert forall|q: int|
            if within(w.range, q) && q * PAGE_SIZE_4K < next {
                #[trigger] t.dom().contains(q) && (t0.dom().contains(q) ==> t[q].paddr
                    == t0[q].paddr)
            } else {
                kept(t, t0, q)
            } by {
            assert(t.dom().contains(q) || !t.dom().contains(q));
            if va <= q * PAGE_SIZE_4K < next {
                assert(same_block(p, q, size));
            }
        }
    }
}

/// A page is mapped, or mapped anew where it was.
proof fn lemma_map(
    w: MappedWish,
    t: Map<int, PageEntry>,
    t0: Map<int, PageEntry>,
    va: usize,
    pages: int,
    paddr: usize,
    size: PageSize,
    flags: MappingFlags,
)
    requires
        w.ok(t0),
        w.reached(t, t0, va as int, pages),
        va < w.range.end,
        !(size is Size1G),
        va as int % size.bytes() as int == 0,
        va + size.bytes() <= w.range.end,
        paddr + size.bytes() <= usize::MAX,
        vacant(t, va, paddr, size) || (t.dom().contains(number(va)) && t[number(va)].size == size
            && t[number(va)].paddr == paddr),
    ensures
        w.reached(
            placed(t, number(va), paddr as int, size, flags),
            t0,
            va + size.bytes(),
            pages + if flags.contains(w.access) {
                1int
            } else {
                0
            },
        ),
{
    reveal(MappedWish::reached);
    let p = number(va);
    let u = placed(t, p, paddr as int, size, flags);
    let next = va + size.bytes();
    lemma_block_at(va, size, p);
    assert forall|q: int| same_block(p, q, size) && #[trigger] t.dom().contains(q) implies t[q].size
        == size && t[q].paddr == paddr + (q - p) * PAGE_SIZE_4K by {
        assert(t.dom().contains(p));
        assert(same_block(p, q, t[p].size));
    }
    assert forall|q: int| #[trigger] same_block(p, q, size) == (va <= q * PAGE_SIZE_4K < next) by {
        lemma_block_at(va, size, q);
    }
    assert forall|q: int| same_block(p, q, size) && #[trigger] t.dom().contains(q) implies small_pages(
        t[q].size,
    ) <= small_pages(size) by {}
    lemma_placed(t, p, paddr as int, size, flags);
    assert(same_block(p, p, size));
    assert forall|q: int| q * PAGE_SIZE_4K < va implies #[trigger] kept(u, t, q) by {
        assert(!same_block(p, q, size));
    }
    assert(next % PAGE_SIZE_4K as int == 0) by {
        match size {
            PageSize::Size4K => {
                assert(va as int % 4096 == 0);
            },
            PageSize::Size2M => {
                assert(va as int % 2_097_152 == 0);
            },
            PageSize::Size1G => {},
        }
    }
    assert(!same_block(p, next / PAGE_SIZE_4K as int, size)) by {
        assert(next / PAGE_SIZE_4K as int * PAGE_SIZE_4K == next);
        lemma_block_at(va, size, next / PAGE_SIZE_4K as int);
    }
    lemma_one_more(t, u, w.range, va as int, next, w.access);
    assert(filled(u, t0, w.range, next)) by {
        assert forall|q: int|
            if within(w.range, q) && q * PAGE_SIZE_4K < next {
                #[trigger] u.dom().contains(q) && (t0.dom().contains(q) ==> u[q].paddr
                    == t0[q].paddr)
            } else {
                kept(u, t0, q)
            } by {
            assert(t.dom().contains(q) || !t.dom().contains(q));
            assert(same_block(p, q, size) == (va <= q * PAGE_SIZE_4K < next));
            if same_block(p, q, size) {
                assert(kept(t, t0, q));
            }
        }
    }
}

/// A population of shared memory in its space.
pub struct SharedPopulateRun {
    pub machine: SharedPopulate,
    pub space: Space,
    pub turn: Option<Turn<usize>>,
}

/// The population after a reply from the space `space`, the cache being `cache`.
pub open spec fn shared_populate_resumed(
    a: SharedPopulateRun,
    cache: CacheView,
    reply: Reply,
    space: Space,
) -> SharedPopulateRun {
    let s = a.machine.after(cache, reply);
    SharedPopulateRun {
        machine: s.next,
        space: space.all_performed(s.effects),
        turn: Some(s.turn),
    }
}

/// Whether a request of a population can be answered, or refused. A request of a
/// fetch leaves the page table alone.
pub open spec fn shared_populate_answers(
    a: SharedPopulateRun,
    request: Request,
    cache: CacheView,
    reply: Reply,
    space: Space,
) -> bool {
    &&& cache.wf()
    &&& a.machine.awaits(reply)
    &&& if a.machine.state is Fetching {
        space.table == a.space.table
    } else {
        a.space.answers(request, reply, space) || (refused(reply) && space == a.space)
    }
}

/// Whether a population can go from `a` to `b`: it starts, or its request is
/// answered. In between, others may have used the cache.
pub open spec fn shared_populate_moves(a: SharedPopulateRun, b: SharedPopulateRun) -> bool {
    match a.turn {
        None => exists|cache: CacheView|
            #[trigger] cache.wf() && b == shared_populate_resumed(a, cache, Reply::Start, a.space),
        Some(Turn::Ask(request)) => exists|cache: CacheView, reply: Reply, space: Space| #[trigger]
            shared_populate_answers(a, request, cache, reply, space) && b == shared_populate_resumed(
                a,
                cache,
                reply,
                space,
            ),
        Some(Turn::Finished(_)) => false,
    }
}

/// Whether a population goes through the given stages.
pub open spec fn shared_populate_runs(stages: Seq<SharedPopulateRun>) -> bool {
    &&& stages.len() > 0
    &&& forall|i: int|
        0 <= i < stages.len() - 1 ==> shared_populate_moves(#[trigger] stages[i], stages[i + 1])
}

/// Whether a request is one to map the page that a population has fetched.
pub open spec fn maps_fetched(
    range: VirtAddrRange,
    first: MappingFlags,
    va: usize,
    page_size: usize,
    request: Request,
) -> bool {
    request matches Request::MapPage { va: at, paddr: _, size, flags } && at == va && flags == first
        && size == (if fits_whole(range, va, page_size) {
        table_size(page_size)
    } else {
        PageSize::Size4K
    })
}

/// How many pages satisfy an access when one more, with the given rights, is
/// looked at.
pub open spec fn one_more_if(pages: usize, flags: MappingFlags, access: MappingFlags) -> int {
    pages + if flags.contains(access) {
        1int
    } else {
        0
    }
}

/// Whether a step leads to the next page, behind `bytes`, or ends there.
spec fn shared_passed(
    m: SharedPopulate,
    s: CacheStep<SharedPopulate, usize>,
    bytes: int,
    flags: MappingFlags,
) -> bool {
    &&& s.next.va == m.va + bytes
    &&& s.next.pages == one_more_if(m.pages, flags, m.access_flags)
    &&& if s.next.va < m.range.end {
        s.next.state is AwaitEntry && s.turn == Turn::<usize>::Ask(
            Request::Query { va: s.next.va },
        )
    } else {
        s.turn == Turn::<usize>::Finished(Ok(s.next.pages))
    }
}

/// Whether a step is one of a fetch, or leads to the mapping of what was fetched.
spec fn shared_fetched(m: SharedPopulate, s: CacheStep<SharedPopulate, usize>) -> bool {
    &&& s.next.va == m.va
    &&& s.next.pages == m.pages
    &&& match s.turn {
        Turn::Ask(request) => {
            &&& is_cache_page_size(s.next.page_size)
            &&& s.next.state is Fetching || (s.next.state is AwaitMap && maps_fetched(
                m.range,
                m.flags,
                m.va,
                s.next.page_size,
                request,
            ))
        },
        Turn::Finished(result) => result is Err,
    }
}

/// What a step of a population of shared memory comes to.
proof fn lemma_shared_steps(m: SharedPopulate, cache: CacheView, reply: Reply)
    requires
        cache.wf(),
        m.awaits(reply),
        m.range.low(PageSize::Size2M),
        m.va < m.range.end || m.state is Begin,
        m.state is Begin ==> m.va == m.range.start,
        m.pages <= m.va,
        m.state is Fetching || m.state is AwaitMap ==> is_cache_page_size(m.page_size),
    ensures
        ({
            let s = m.after(cache, reply);
            &&& s.next.range == m.range
            &&& s.next.flags == m.flags
            &&& s.next.access_flags == m.access_flags
            &&& match (m.state, reply) {
                (PopulateState::Begin, _) => {
                    &&& s.next.va == m.va
                    &&& s.next.pages == m.pages
                    &&& if m.va < m.range.end {
                        s.next.state is AwaitEntry && s.turn == Turn::<usize>::Ask(
                            Request::Query { va: m.va },
                        )
                    } else {
                        s.turn == Turn::<usize>::Finished(Ok(m.pages))
                    }
                },
                (PopulateState::AwaitEntry, Reply::Entry { paddr: _, flags, size }) => shared_passed(
                    m,
                    s,
                    m.rest(size),
                    flags,
                ),
                (PopulateState::AwaitEntry, Reply::Fault(PagingError::NotMapped)) => shared_fetched(
                    m,
                    s,
                ),
                (PopulateState::Fetching, _) => shared_fetched(m, s),
                (PopulateState::AwaitMap, Reply::Done) => shared_passed(
                    m,
                    s,
                    if fits_whole(m.range, m.va, m.page_size) {
                        m.page_size as int
                    } else {
                        PAGE_SIZE_4K as int
                    },
                    m.flags,
                ),
                _ => {
                    &&& s.next.va == m.va
                    &&& s.next.pages == m.pages
                    &&& s.turn matches Turn::Finished(Err(_))
                },
            }
        }),
{
    reveal(SharedPopulate::after);
    match (m.state, reply) {
        (PopulateState::AwaitEntry, Reply::Entry { paddr: _, flags: _, size }) => {
            lemma_some_rest(m.va, size);
        },
        (PopulateState::AwaitEntry, Reply::Fault(PagingError::NotMapped)) => {
            lemma_sought(page_map(cache.pages), 0, m.pn as int);
        },
        _ => {},
    }
}

/// What holds at every stage of a population of shared memory.
pub open spec fn shared_populate_invariant(
    r: SharedPopulateRun,
    w: MappedWish,
    t0: Map<int, PageEntry>,
) -> bool {
    let m = r.machine;
    let t = r.space.table;
    &&& m.range == w.range
    &&& m.flags == w.flags
    &&& m.flags == w.first
    &&& m.access_flags == w.access
    &&& match r.turn {
        None => m.state is Begin && m.va == w.range.start && m.pages == 0 && t == t0,
        Some(Turn::Ask(request)) => {
            &&& m.va < w.range.end
            &&& w.reached(t, t0, m.va as int, m.pages as int)
            &&& match m.state {
                PopulateState::AwaitEntry => request == (Request::Query { va: m.va }),
                PopulateState::Fetching => is_cache_page_size(m.page_size),
                PopulateState::AwaitMap => is_cache_page_size(m.page_size) && maps_fetched(
                    w.range,
                    w.first,
                    m.va,
                    m.page_size,
                    request,
                ),
                _ => false,
            }
        },
        Some(Turn::Finished(result)) => {
            &&& w.reached(t, t0, m.va as int, m.pages as int)
            &&& result matches Ok(n) ==> m.va >= w.range.end && n == m.pages
        },
    }
}

/// A stage of a population of shared memory is followed by a stage of it.
proof fn lemma_shared_populate_moves(
    a: SharedPopulateRun,
    b: SharedPopulateRun,
    w: MappedWish,
    t0: Map<int, PageEntry>,
)
    requires
        w.ok(t0),
        shared_populate_invariant(a, w, t0),
        shared_populate_moves(a, b),
    ensures
        shared_populate_invariant(b, w, t0),
{
    let m = a.machine;
    let t = a.space.table;
    match a.turn {
        None => {
            let cache = choose|cache: CacheView|
                #[trigger] cache.wf() && b == shared_populate_resumed(
                    a,
                    cache,
                    Reply::Start,
                    a.space,
                );
            lemma_table_kept(a.space, m.after(cache, Reply::Start).effects);
            lemma_shared_steps(m, cache, Reply::Start);
            lemma_begun(w, t0);
        },
        Some(Turn::Ask(request)) => {
            let (cache, reply, answered) = choose|cache: CacheView, reply: Reply, s: Space| #[trigger]
                shared_populate_answers(a, request, cache, reply, s) && b == shared_populate_resumed(
                    a,
                    cache,
                    reply,
                    s,
                );
            lemma_table_kept(answered, m.after(cache, reply).effects);
            lemma_stands(w, t, t0, m.va, m.pages as int);
            lemma_shared_steps(m, cache, reply);
            match m.state {
                PopulateState::AwaitEntry => {
                    if t.dom().contains(number(m.va)) {
                        lemma_pass(w, t, t0, m.va, m.pages as int);
                    }
                },
                PopulateState::AwaitMap => {
                    if let (Request::MapPage { va, paddr, size, flags }, Reply::Done) = (
                        request,
                        reply,
                    ) {
                        lemma_room(w, m.va, m.page_size);
                        lemma_map(w, t, t0, m.va, m.pages as int, paddr, size, flags);
                    }
                },
                _ => {},
            }
        },
        Some(Turn::Finished(_)) => {},
    }
}

/// Where a population stands.
proof fn lemma_stands(
    w: MappedWish,
    t: Map<int, PageEntry>,
    t0: Map<int, PageEntry>,
    va: usize,
    pages: int,
)
    requires
        w.reached(t, t0, va as int, pages),
    ensures
        w.range.start <= va,
        va as int % PAGE_SIZE_4K as int == 0,
        0 <= pages <= va,
{
    reveal(MappedWish::reached);
    lemma_satisfied_finite(t, w.range, va as int, w.access);
}

/// At the start of its range a population has come to its address.
proof fn lemma_begun(w: MappedWish, t0: Map<int, PageEntry>)
    requires
        w.ok(t0),
    ensures
        w.reached(t0, t0, w.range.start as int, 0),
{
    reveal(MappedWish::reached);
    assert(satisfied(t0, w.range, w.range.start as int, w.access) =~= Set::empty());
    assert(filled(t0, t0, w.range, w.range.start as int));
}

/// The chunk with a small page in it has the size of a page.
proof fn lemma_sought(m: Map<u32, PageCache>, at: int, pn: int)
    requires
        pages_ok(m),
    ensures
        is_cache_page_size(chunk_from(m, at, pn).1),
    decreases pn - at + 1,
{
    if at > pn {
    } else if covers(m, at, pn) {
        assert(m[at as u32].wf());
    } else {
        lemma_sought(m, at + step(m, at), pn);
    }
}

/// A page that is mapped has room in the range.
proof fn lemma_room(w: MappedWish, va: usize, page_size: usize)
    requires
        w.range.aligned_to(PageSize::Size4K),
        w.range.start <= va < w.range.end,
        va as int % PAGE_SIZE_4K as int == 0,
        is_cache_page_size(page_size),
    ensures
        fits_whole(w.range, va, page_size) ==> table_size(page_size).bytes() == page_size,
        va + PAGE_SIZE_4K <= w.range.end,
{
    assert(w.range.end as int % 4096 == 0 && va as int % 4096 == 0);
}

proof fn lemma_shared_populate_stages(
    stages: Seq<SharedPopulateRun>,
    i: int,
    w: MappedWish,
    t0: Map<int, PageEntry>,
)
    requires
        w.ok(t0),
        shared_populate_runs(stages),
        0 <= i < stages.len(),
        shared_populate_invariant(stages[0], w, t0),
    ensures
        shared_populate_invariant(stages[i], w, t0),
    decreases i,
{
    if i > 0 {
        lemma_shared_populate_stages(stages, i - 1, w, t0);
        assert(shared_populate_moves(stages[i - 1], stages[i - 1 + 1]));
        lemma_shared_populate_moves(stages[i - 1], stages[i], w, t0);
    }
}

/// What a population that has come to an address leaves.
proof fn lemma_filled(w: MappedWish, t: Map<int, PageEntry>, t0: Map<int, PageEntry>, va: int, n: int)
    requires
        w.reached(t, t0, va, n),
    ensures
        forall|p: int| #[trigger]
            t0.dom().contains(p) ==> t.dom().contains(p) && t[p].paddr == t0[p].paddr,
        forall|p: int| !within(w.range, p) ==> #[trigger] kept(t, t0, p),
        va >= w.range.end ==> {
            &&& n == satisfied(t, w.range, w.range.end as int, w.access).len()
            &&& forall|p: int| within(w.range, p) ==> #[trigger] t.dom().contains(p)
        },
{
    reveal(MappedWish::reached);
    if va >= w.range.end {
        assert(satisfied(t, w.range, va, w.access) =~= satisfied(
            t,
            w.range,
            w.range.end as int,
            w.access,
        ));
    }
    assert forall|p: int| #[trigger] t0.dom().contains(p) implies t.dom().contains(p) && t[p].paddr
        == t0[p].paddr by {
        assert(t.dom().contains(p) || !t.dom().contains(p));
    }
    assert forall|p: int| !within(w.range, p) implies #[trigger] kept(t, t0, p) by {
        assert(t.dom().contains(p) || !t.dom().contains(p));
    }
}

/// At every stage of a population of shared memory, whether its requests are answered
/// or refused, what was mapped is mapped to the same memory as before, and outside
/// of the range nothing has changed. If it succeeds, all pages of the range are
/// mapped, and its result is the number of those whose rights contain the access.
/// What is unmapped because it left the cache is left aside.
pub proof fn law_shared_population_counts_the_satisfying_pages(
    b: SharedBackend,
    m: SharedPopulate,
    stages: Seq<SharedPopulateRun>,
    w: MappedWish,
    before: Space,
)
    requires
        w.ok(before.table),
        w.first == w.flags,
        call_ensures(SharedBackend::populate, (&b, w.range, w.flags, w.access), m),
        shared_populate_runs(stages),
        stages[0].machine == m,
        stages[0].space == before,
        stages[0].turn is None,
    ensures
        ({
            let t = stages.last().space.table;
            &&& forall|p: int| #[trigger]
                before.table.dom().contains(p) ==> t.dom().contains(p) && t[p].paddr
                    == before.table[p].paddr
            &&& forall|p: int| !within(w.range, p) ==> #[trigger] kept(t, before.table, p)
        }),
        stages.last().turn matches Some(Turn::Finished(Ok(n))) ==> {
            let t = stages.last().space.table;
            &&& n == satisfied(t, w.range, w.range.end as int, w.access).len()
            &&& forall|p: int| within(w.range, p) ==> #[trigger] t.dom().contains(p)
        },
{
    lemma_shared_populate_stages(stages, stages.len() - 1, w, before.table);
    let m = stages.last().machine;
    if stages.last().turn is Some {
        lemma_filled(w, stages.last().space.table, before.table, m.va as int, m.pages as int);
    }
}

/// A population of a mapped file in its space.
pub struct FilePopulateRun {
    pub machine: FilePopulateView,
    pub space: Space,
    pub turn: Option<Turn<usize>>,
}

/// The population after a reply from the space `space`, the cache being `cache`.
pub open spec fn file_populate_resumed(
    a: FilePopulateRun,
    cache: CacheView,
    reply: Reply,
    space: Space,
) -> FilePopulateRun {
    let s = a.machine.after(cache, reply);
    FilePopulateRun {
        machine: s.next,
        space: space.all_performed(s.effects),
        turn: Some(s.turn),
    }
}

/// Whether a request of a population can be answered, or refused. A request of a
/// fetch, and that for the length of the file, leave the page table alone.
pub open spec fn file_populate_answers(
    a: FilePopulateRun,
    request: Request,
    cache: CacheView,
    reply: Reply,
    space: Space,
) -> bool {
    &&& cache.wf()
    &&& a.machine.awaits(cache, reply)
    &&& if a.machine.state is Fetching || a.machine.state is AwaitLen {
        space.table == a.space.table
    } else {
        a.space.answers(request, reply, space) || (refused(reply) && space == a.space)
    }
}

/// Whether a population can go from `a` to `b`: it starts, or its request is
/// answered. In between, others may have used the cache.
pub open spec fn file_populate_moves(a: FilePopulateRun, b: FilePopulateRun) -> bool {
    match a.turn {
        None => exists|cache: CacheView|
            #[trigger] cache.wf() && b == file_populate_resumed(a, cache, Reply::Start, a.space),
        Some(Turn::Ask(request)) => exists|cache: CacheView, reply: Reply, space: Space| #[trigger]
            file_populate_answers(a, request, cache, reply, space) && b == file_populate_resumed(
                a,
                cache,
                reply,
                space,
            ),
        Some(Turn::Finished(_)) => false,
    }
}

/// Whether a population goes through the given stages.
pub open spec fn file_populate_runs(stages: Seq<FilePopulateRun>) -> bool {
    &&& stages.len() > 0
    &&& forall|i: int|
        0 <= i < stages.len() - 1 ==> file_populate_moves(#[trigger] stages[i], stages[i + 1])
}

/// What holds at every stage of a population of a mapped file.
pub open spec fn file_populate_invariant(
    r: FilePopulateRun,
    w: MappedWish,
    t0: Map<int, PageEntry>,
) -> bool {
    let m = r.machine;
    let t = r.space.table;
    &&& m.range == w.range
    &&& m.flags == w.flags
    &&& m.map_flags() == w.first
    &&& m.access_flags == w.access
    &&& match r.turn {
        None => m.state is Begin && m.va == w.range.start && m.pages == 0 && t == t0,
        Some(Turn::Ask(request)) => {
            &&& m.va < w.range.end || m.state is AwaitLen
            &&& w.reached(t, t0, m.va as int, m.pages as int)
            &&& match m.state {
                FilePopulateState::AwaitLen => true,
                FilePopulateState::AwaitEntry => request == (Request::Query { va: m.va }),
                FilePopulateState::Fetching => is_cache_page_size(m.page_size),
                FilePopulateState::AwaitMap => is_cache_page_size(m.page_size) && maps_fetched(
                    w.range,
                    w.first,
                    m.va,
                    m.page_size,
                    request,
                ),
                FilePopulateState::AwaitRemap => {
                    &&& t.dom().contains(number(m.va))
                    &&& t[number(m.va)].size == m.step
                    &&& !(m.step is Size1G)
                    &&& m.va as int % m.step.bytes() as int == 0 ==> m.va + m.step.bytes()
                        <= w.range.end
                    &&& request matches Request::Remap { va, paddr, flags } && va == m.va && paddr
                        == t[number(m.va)].paddr && flags == w.flags
                },
                _ => false,
            }
        },
        Some(Turn::Finished(result)) => {
            &&& w.reached(t, t0, m.va as int, m.pages as int)
            &&& result matches Ok(n) ==> m.va >= w.range.end && n == m.pages
        },
    }
}

/// Whether a step leads to the next page, behind `bytes`, or ends there.
spec fn file_passed(
    m: FilePopulateView,
    s: CacheStep<FilePopulateView, usize>,
    bytes: int,
    flags: MappingFlags,
) -> bool {
    &&& s.next.va == m.va + bytes
    &&& s.next.pages == one_more_if(m.pages, flags, m.access_flags)
    &&& if s.next.va < m.range.end {
        s.next.state is AwaitEntry && s.turn == Turn::<usize>::Ask(
            Request::Query { va: s.next.va },
        )
    } else {
        s.turn == Turn::<usize>::Finished(Ok(s.next.pages))
    }
}

/// Whether a step is one of a fetch, or leads to the mapping of what was fetched.
spec fn file_fetched(m: FilePopulateView, s: CacheStep<FilePopulateView, usize>) -> bool {
    &&& s.next.va == m.va
    &&& s.next.pages == m.pages
    &&& match s.turn {
        Turn::Ask(request) => {
            &&& is_cache_page_size(s.next.page_size)
            &&& s.next.state is Fetching || (s.next.state is AwaitMap && maps_fetched(
                m.range,
                m.map_flags(),
                m.va,
                s.next.page_size,
                request,
            ))
        },
        Turn::Finished(result) => result is Err,
    }
}

/// What a step of a population of a mapped file comes to.
proof fn lemma_file_steps(m: FilePopulateView, cache: CacheView, reply: Reply)
    requires
        cache.wf(),
        m.awaits(cache, reply),
        m.range.low(PageSize::Size2M),
        m.va < m.range.end || m.state is Begin || m.state is AwaitLen,
        m.pages <= m.va,
        m.state is Fetching || m.state is AwaitMap ==> is_cache_page_size(m.page_size),
        m.state is AwaitRemap ==> !(m.step is Size1G),
    ensures
        ({
            let s = m.after(cache, reply);
            &&& s.next.range == m.range
            &&& s.next.flags == m.flags
            &&& s.next.backend == m.backend
            &&& s.next.access_flags == m.access_flags
            &&& match (m.state, reply) {
                (FilePopulateState::Begin, _) => {
                    &&& s.next.va == m.va
                    &&& s.next.pages == m.pages
                    &&& s.turn is Ask ==> s.next.state is AwaitLen
                    &&& s.turn matches Turn::Finished(result) ==> result is Err
                },
                (FilePopulateState::AwaitLen, Reply::Len(_)) => {
                    &&& s.next.va == m.va
                    &&& s.next.pages == m.pages
                    &&& match s.turn {
                        Turn::Ask(request) => m.va < m.range.end && s.next.state is AwaitEntry
                            && request == (Request::Query { va: m.va }),
                        Turn::Finished(Ok(n)) => m.va >= m.range.end && n == m.pages,
                        Turn::Finished(Err(_)) => true,
                    }
                },
                (FilePopulateState::AwaitEntry, Reply::Entry { paddr, flags, size }) => if m.upgrades(
                    flags,
                ) {
                    &&& s.next.va == m.va
                    &&& s.next.pages == m.pages
                    &&& s.next.state is AwaitRemap
                    &&& s.next.step == size
                    &&& s.turn == Turn::<usize>::Ask(
                        Request::Remap { va: m.va, paddr, flags: m.flags },
                    )
                } else {
                    file_passed(m, s, m.rest(size), flags)
                },
                (FilePopulateState::AwaitEntry, Reply::Fault(PagingError::NotMapped)) => file_fetched(
                    m,
                    s,
                ),
                (FilePopulateState::Fetching, _) => file_fetched(m, s),
                (FilePopulateState::AwaitMap, Reply::Done) => file_passed(
                    m,
                    s,
                    if fits_whole(m.range, m.va, m.page_size) {
                        m.page_size as int
                    } else {
                        PAGE_SIZE_4K as int
                    },
                    m.map_flags(),
                ),
                (FilePopulateState::AwaitRemap, Reply::Done) => file_passed(
                    m,
                    s,
                    m.rest(m.step),
                    m.flags,
                ),
                _ => {
                    &&& s.next.va == m.va
                    &&& s.next.pages == m.pages
                    &&& s.turn matches Turn::Finished(Err(_))
                },
            }
        }),
{
    reveal(FilePopulateView::after);
    match (m.state, reply) {
        (FilePopulateState::AwaitEntry, Reply::Entry { paddr: _, flags: _, size }) => {
            lemma_some_rest(m.va, size);
        },
        (FilePopulateState::AwaitRemap, Reply::Done) => {
            lemma_some_rest(m.va, m.step);
        },
        (FilePopulateState::AwaitEntry, Reply::Fault(PagingError::NotMapped)) => {
            lemma_sought(page_map(cache.pages), 0, m.pn as int);
        },
        _ => {},
    }
}

/// A stage of a population of a mapped file is followed by a stage of it.
proof fn lemma_file_populate_moves(
    a: FilePopulateRun,
    b: FilePopulateRun,
    w: MappedWish,
    t0: Map<int, PageEntry>,
)
    requires
        w.ok(t0),
        file_populate_invariant(a, w, t0),
        file_populate_moves(a, b),
    ensures
        file_populate_invariant(b, w, t0),
{
    let m = a.machine;
    let t = a.space.table;
    let p = number(m.va);
    match a.turn {
        None => {
            let cache = choose|cache: CacheView|
                #[trigger] cache.wf() && b == file_populate_resumed(
                    a,
                    cache,
                    Reply::Start,
                    a.space,
                );
            lemma_table_kept(a.space, m.after(cache, Reply::Start).effects);
            lemma_file_steps(m, cache, Reply::Start);
            lemma_begun(w, t0);
        },
        Some(Turn::Ask(request)) => {
            let (cache, reply, answered) = choose|cache: CacheView, reply: Reply, s: Space| #[trigger]
                file_populate_answers(a, request, cache, reply, s) && b == file_populate_resumed(
                    a,
                    cache,
                    reply,
                    s,
                );
            lemma_table_kept(answered, m.after(cache, reply).effects);
            lemma_stands(w, t, t0, m.va, m.pages as int);
            lemma_file_steps(m, cache, reply);
            match m.state {
                FilePopulateState::AwaitEntry => {
                    if t.dom().contains(p) {
                        lemma_pass(w, t, t0, m.va, m.pages as int);
                    }
                },
                FilePopulateState::AwaitMap => {
                    if let (Request::MapPage { va, paddr, size, flags }, Reply::Done) = (
                        request,
                        reply,
                    ) {
                        lemma_room(w, m.va, m.page_size);
                        lemma_map(w, t, t0, m.va, m.pages as int, paddr, size, flags);
                    }
                },
                FilePopulateState::AwaitRemap => {
                    if let (Request::Remap { va, paddr, flags }, Reply::Done) = (request, reply) {
                        lemma_map(w, t, t0, m.va, m.pages as int, paddr, m.step, flags);
                        assert(m.rest(m.step) == m.step.bytes());
                    }
                },
                _ => {},
            }
        },
        Some(Turn::Finished(_)) => {},
    }
}

proof fn lemma_file_populate_stages(
    stages: Seq<FilePopulateRun>,
    i: int,
    w: MappedWish,
    t0: Map<int, PageEntry>,
)
    requires
        w.ok(t0),
        file_populate_runs(stages),
        0 <= i < stages.len(),
        file_populate_invariant(stages[0], w, t0),
    ensures
        file_populate_invariant(stages[i], w, t0),
    decreases i,
{
    if i > 0 {
        lemma_file_populate_stages(stages, i - 1, w, t0);
        assert(file_populate_moves(stages[i - 1], stages[i - 1 + 1]));
        lemma_file_populate_moves(stages[i - 1], stages[i], w, t0);
    }
}

/// At every stage of a population of a mapped file, whether its requests are answered
/// or refused, what was mapped is mapped to the same memory as before, and outside
/// of the range nothing has changed. If it succeeds, all pages of the range are
/// mapped, and its result is the number of those whose rights contain the access.
/// What is unmapped because it left the cache is left aside.
pub proof fn law_file_population_counts_the_satisfying_pages(
    b: FileBackend,
    m: FilePopulate,
    stages: Seq<FilePopulateRun>,
    w: MappedWish,
    before: Space,
)
    requires
        w.ok(before.table),
        w.first.bits == (if b.inner.cache.in_memory {
            w.flags.bits
        } else {
            w.flags.bits & !2usize
        }),
        call_ensures(FileBackend::populate, (&b, w.range, w.flags, w.access), m),
        file_populate_runs(stages),
        stages[0].machine == m@,
        stages[0].space == before,
        stages[0].turn is None,
    ensures
        ({
            let t = stages.last().space.table;
            &&& forall|p: int| #[trigger]
                before.table.dom().contains(p) ==> t.dom().contains(p) && t[p].paddr
                    == before.table[p].paddr
            &&& forall|p: int| !within(w.range, p) ==> #[trigger] kept(t, before.table, p)
        }),
        stages.last().turn matches Some(Turn::Finished(Ok(n))) ==> {
            let t = stages.last().space.table;
            &&& n == satisfied(t, w.range, w.range.end as int, w.access).len()
            &&& forall|p: int| within(w.range, p) ==> #[trigger] t.dom().contains(p)
        },
{
    lemma_file_populate_stages(stages, stages.len() - 1, w, before.table);
    let m = stages.last().machine;
    if stages.last().turn is Some {
        lemma_filled(w, stages.last().space.table, before.table, m.va as int, m.pages as int);
    }
}

/// How many steps a fetch can still take, at most.
pub open spec fn fetch_left(f: PageFetch) -> nat {
    match f.state {
        FetchState::Begin => 6,
        FetchState::Evicting => match f.eviction.state {
            EvictState::Begin => 5,
            EvictState::AwaitLen => 4,
            EvictState::AwaitWrite => 3,
        },
        FetchState::AwaitPage => 2,
        FetchState::AwaitRead => 1,
        FetchState::Over => 0,
    }
}

/// How many steps a population of shared memory can still take, at most.
pub open spec fn shared_populate_left(t: SharedPopulate) -> int {
    let bytes = t.range.end - t.va;
    match t.state {
        PopulateState::Begin => bytes * 16 + 9,
        PopulateState::AwaitEntry => bytes * 16 + 8,
        PopulateState::Fetching => bytes * 16 + 1 + fetch_left(t.fetch),
        PopulateState::AwaitMap => bytes * 16 + 1,
        PopulateState::Over => 0,
    }
}

/// How many steps a population of a mapped file can still take, at most.
pub open spec fn file_populate_left(t: FilePopulateView) -> int {
    let bytes = t.range.end - t.va;
    match t.state {
        FilePopulateState::Begin => bytes * 16 + 10,
        FilePopulateState::AwaitLen => bytes * 16 + 9,
        FilePopulateState::AwaitEntry => bytes * 16 + 8,
        FilePopulateState::Fetching => bytes * 16 + 1 + fetch_left(t.fetch),
        FilePopulateState::AwaitMap | FilePopulateState::AwaitRemap => bytes * 16 + 1,
        FilePopulateState::Over => 0,
    }
}

/// A step of a fetch brings it nearer to its end.
proof fn lemma_fetch_ends(f: PageFetch, cache: CacheView, reply: Reply)
    requires
        f.awaits(reply),
    ensures
        fetch_left(f.after(cache, reply).next) < fetch_left(f),
{
    reveal(PageFetch::after);
}

/// A population of shared memory ends: every step leaves it fewer steps to take,
/// whatever it is answered, and none are left only where it is over.
pub proof fn law_shared_population_ends(t: SharedPopulate, cache: CacheView, reply: Reply)
    requires
        t.wf(),
        t.awaits(reply),
        cache.wf(),
    ensures
        ({
            let s = t.after(cache, reply);
            &&& 0 <= shared_populate_left(s.next) < shared_populate_left(t)
            &&& s.turn is Finished <==> s.next.state is Over
        }),
{
    reveal(SharedPopulate::after);
    match (t.state, reply) {
        (PopulateState::Fetching, _) => {
            lemma_fetch_ends(t.fetch, cache, reply);
        },
        (PopulateState::AwaitEntry, Reply::Entry { paddr: _, flags: _, size }) => {
            lemma_some_rest(t.va, size);
        },
        (PopulateState::AwaitEntry, Reply::Fault(PagingError::NotMapped)) => {
            lemma_seek_ends(t.backend.inner.cache);
        },
        _ => {},
    }
}

/// A population of a mapped file ends: every step leaves it fewer steps to take,
/// whatever it is answered, and none are left only where it is over.
pub proof fn law_file_population_ends(t: FilePopulateView, cache: CacheView, reply: Reply)
    requires
        t.wf(),
        t.awaits(cache, reply),
        cache.wf(),
    ensures
        ({
            let s = t.after(cache, reply);
            &&& 0 <= file_populate_left(s.next) < file_populate_left(t)
            &&& s.turn is Finished <==> s.next.state is Over
        }),
{
    reveal(FilePopulateView::after);
    match (t.state, reply) {
        (FilePopulateState::Fetching, _) => {
            lemma_fetch_ends(t.fetch, cache, reply);
        },
        (FilePopulateState::AwaitEntry, Reply::Entry { paddr: _, flags: _, size }) => {
            lemma_some_rest(t.va, size);
        },
        (FilePopulateState::AwaitRemap, Reply::Done) => {
            lemma_some_rest(t.va, t.step);
        },
        (FilePopulateState::AwaitEntry, Reply::Fault(PagingError::NotMapped)) => {
            lemma_seek_ends(t.backend.inner.cache);
        },
        _ => {},
    }
}

/// Something of a page is left behind an address in it.
proof fn lemma_some_rest(va: usize, size: PageSize)
    requires
        !(size is Size1G),
    ensures
        0 < size.bytes() - va as int % size.bytes() as int <= PAGE_SIZE_2M,
{
    match size {
        PageSize::Size4K => {
            assert(0 <= va as int % 4096 < 4096);
        },
        PageSize::Size2M => {
            assert(0 <= va as int % 2_097_152 < 2_097_152);
        },
        PageSize::Size1G => {},
    }
}

/// The first step of a fetch.
proof fn lemma_seek_ends(file: CachedFile)
    ensures
        forall|c: CacheView, base: u32, size: usize|
            fetch_left(#[trigger] file.fetch_of(base, size).after(c, Reply::Start).next) < 6,
{
    assert forall|c: CacheView, base: u32, size: usize|
        fetch_left(#[trigger] file.fetch_of(base, size).after(c, Reply::Start).next) < 6 by {
        lemma_fetch_ends(file.fetch_of(base, size), c, Reply::Start);
    }
}

} // verus!
