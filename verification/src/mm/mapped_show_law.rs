//! Every page that a mapping of a file or of shared memory maps is the one of the
//! file that belongs at its address.

use vstd::prelude::*;
use crate::addr::{PageSize, VirtAddrRange, PAGE_SIZE_2M, PAGE_SIZE_4K};
use crate::effect::{Reply, Request, Turn};
use crate::error::PagingError;
use crate::flags::MappingFlags;
use crate::fs::cache::{pages_ok, CacheView};
use crate::fs::chunks::{chunk_from, chunk_order, lemma_chunk_order};
use crate::fs::fetch::{FetchState, PageFetch};
use crate::fs::fetch_law::lemma_pages_ok_insert;
use crate::fs::page::PageCache;
use crate::fs::recency::{
    has_key, lemma_drop_last, lemma_lookup_map, lemma_placed, lemma_pushed, lemma_touched, page_map, pushed,
};
use crate::fs::world::{coherent, held, holds, World};
use crate::mm::file::FileBackend;
use crate::mm::file_populate::{FilePopulate, FilePopulateState, FilePopulateView};
use crate::mm::mapped_populate_law::{
    congruent, huge_aligned, in_place, in_step, law_file_mapping_shows_the_cache,
    law_file_population_keeps_in_step, law_shared_mapping_shows_the_cache,
    law_shared_population_stays_in_place, maps_cached,
};
use crate::mm::shared::SharedBackend;
use crate::mm::shared_populate::{PopulateState, SharedPopulate};

verus! {

/// Whether a page that is mapped is memory of a cached page, from the byte `x` of
/// the file on: a small page, or a huge one from its start on.
pub open spec fn shows_from(m: Map<u32, PageCache>, paddr: usize, size: PageSize, x: int) -> bool {
    exists|base: u32| #[trigger]
        m.dom().contains(base) && base * 4096 <= x && x + size.bytes() <= base * 4096 + m[base].size
            && paddr == m[base].paddr + (x - base * 4096) && (size is Size4K || x == base * 4096)
}

/// A stage of a population of a mapped file: where it stands, the cache after the
/// step, what was asked and answered before, and what it waits for or ended with.
pub struct FileShowRun {
    pub machine: FilePopulateView,
    pub cache: CacheView,
    pub asked: Option<Request>,
    pub reply: Reply,
    pub turn: Turn<usize>,
}

/// Whether a step of a population leads to the stage `b`. Others may have used the
/// cache before.
pub open spec fn file_show_steps(a: FilePopulateView, asked: Option<Request>, b: FileShowRun) -> bool {
    b.asked == asked && exists|cache: CacheView| #[trigger]
        cache.wf() && huge_aligned(page_map(cache.pages)) && a.awaits(cache, b.reply) && ({
            let s = a.after(cache, b.reply);
            b.machine == s.next && b.cache == s.cache && b.turn == s.turn
        })
}

/// Whether a population goes from its start through the given stages.
pub open spec fn file_shows(start: FilePopulateView, stages: Seq<FileShowRun>) -> bool {
    &&& stages.len() > 0
    &&& file_show_steps(start, None, stages[0])
    &&& forall|i: int|
        0 <= i < stages.len() - 1 ==> ((#[trigger] stages[i]).turn matches Turn::Ask(request)
            && file_show_steps(stages[i].machine, Some(request), stages[i + 1]))
}

/// What a stage of a population of a mapped file is to ask for or end with.
pub open spec fn file_rightly(
    b: FileBackend,
    range: VirtAddrRange,
    flags: MappingFlags,
    r: FileShowRun,
) -> bool {
    let m = page_map(r.cache.pages);
    match r.turn {
        Turn::Ask(Request::MapPage { va, paddr, size, flags: rights }) => {
            &&& range.start <= va < range.end
            &&& va as int % 4096 == 0
            &&& shows_from(m, paddr, size, b.inner.offset_page * 4096 + (va - b.inner.start))
            &&& rights.bits == (if b.inner.cache.in_memory {
                flags.bits
            } else {
                flags.bits & !2usize
            })
        },
        Turn::Ask(Request::Remap { va, paddr, flags: rights }) => {
            &&& range.start <= va < range.end
            &&& r.reply matches Reply::Entry { paddr: there, flags: had, .. } && paddr == there
                && had.bits & 2 != 2
            &&& rights == flags
            &&& !b.inner.cache.in_memory ==> exists|pn: u32| #[trigger]
                m.dom().contains(pn) && pn * 4096 == b.inner.offset_page * 4096 + (va
                    - b.inner.start) && m[pn].dirty
        },
        Turn::Ask(Request::Query { va }) => range.start <= va < range.end && va as int % 4096 == 0,
        Turn::Ask(_) => true,
        Turn::Finished(Ok(_)) => true,
        Turn::Finished(Err(e)) => {
            ||| r.reply is Failed
            ||| r.reply is Fault && !(r.asked matches Some(Request::Query { .. }) && r.reply
                == Reply::Fault(PagingError::NotMapped))
            ||| r.reply matches Reply::Len(len) && range.start - b.inner.start >= len && e
                is BadAddress
            ||| range.start as int % 4096 != 0 || range.end as int % 4096 != 0
        },
    }
}

/// What a step of a population asks for.
proof fn lemma_file_asks(t: FilePopulateView, cache: CacheView, reply: Reply)
    requires
        in_step(t),
        t.awaits(cache, reply),
        cache.wf(),
    ensures
        ({
            let s = t.after(cache, reply);
            let m = page_map(s.cache.pages);
            &&& s.next.backend == t.backend
            &&& s.next.range == t.range
            &&& s.next.flags == t.flags
            &&& match s.turn {
                Turn::Ask(Request::MapPage { va, flags, .. }) => {
                    &&& va == t.va
                    &&& t.range.start <= va < t.range.end
                    &&& t.va as int % 4096 == 0
                    &&& t.pn == t.backend.inner.page_at(t.va as int)
                    &&& flags == t.map_flags()
                },
                Turn::Ask(Request::Remap { va, paddr, flags }) => {
                    &&& va == t.va
                    &&& t.range.start <= va < t.range.end
                    &&& t.va as int % 4096 == 0
                    &&& t.pn == t.backend.inner.page_at(t.va as int)
                    &&& reply matches Reply::Entry { paddr: there, flags: had, .. } && paddr == there
                        && had.bits & 2 != 2
                    &&& flags == t.flags
                    &&& !t.backend.inner.cache.in_memory ==> m.dom().contains(t.pn) && m[t.pn].dirty
                },
                Turn::Ask(Request::Query { va }) => s.next.va == va && s.next.state is AwaitEntry,
                Turn::Ask(_) => !(s.next.state is AwaitEntry),
                Turn::Finished(Ok(_)) => true,
                Turn::Finished(Err(e)) => {
                    ||| reply is Failed
                    ||| reply is Fault && !(t.state is AwaitEntry && reply == Reply::Fault(
                        PagingError::NotMapped,
                    ))
                    ||| reply matches Reply::Len(len) && t.range.start - t.backend.inner.start >= len
                        && e is BadAddress
                    ||| t.range.start as int % 4096 != 0 || t.range.end as int % 4096 != 0
                },
            }
        }),
{
    reveal(FilePopulateView::after);
    let m = page_map(cache.pages);
    match (t.state, reply) {
        (FilePopulateState::AwaitEntry, Reply::Entry { .. }) => {
            lemma_lookup_map(cache.pages, t.pn);
            if has_key(cache.pages, t.pn) {
                lemma_placed(cache.pages, t.pn, PageCache { dirty: true, ..m[t.pn] });
            }
        },
        (FilePopulateState::AwaitEntry, Reply::Fault(PagingError::NotMapped)) => {
            lemma_chunk_order(cache.pages, m, 0, t.pn as int);
            let (base, size) = chunk_from(m, 0, t.pn as int);
            let base_pn = match base {
                Some(pn) => pn,
                None => t.pn,
            };
            lemma_fetch_cache(
                t.backend.inner.cache.fetch_of(base_pn, size),
                cache.with_pages(chunk_order(cache.pages, m, 0, t.pn as int)),
                Reply::Start,
            );
        },
        (FilePopulateState::Fetching, _) => {
            lemma_fetch_cache(t.fetch, cache, reply);
        },
        _ => {},
    }
}

/// The byte of the file at an address of a mapping.
proof fn lemma_offset(b: FileBackend, va: usize, pn: u32)
    requires
        b.inner.start as int % 4096 == 0,
        va as int % 4096 == 0,
        va >= b.inner.start,
        pn == b.inner.page_at(va as int),
    ensures
        pn * 4096 == b.inner.offset_page * 4096 + (va - b.inner.start),
{
    let d = va - b.inner.start;
    assert(d % 4096 == 0);
    assert((d / 4096) * 4096 == d);
}

/// A page that is mapped shows the file from the start of the small page on.
proof fn lemma_shows_from(m: Map<u32, PageCache>, pn: u32, request: Request, x: int)
    requires
        request is MapPage,
        maps_cached(m, pn as int, request),
        pages_ok(m),
        x == pn * 4096,
        !(request->MapPage_size is Size1G),
    ensures
        shows_from(m, request->MapPage_paddr, request->MapPage_size, x),
{
    let size = request->MapPage_size;
    let base = choose|base: u32|
        #![trigger m.dom().contains(base)]
        {
            &&& m.dom().contains(base)
            &&& base <= pn < base + m[base].size / PAGE_SIZE_4K
            &&& request->MapPage_paddr == m[base].paddr + (pn - base) * PAGE_SIZE_4K
            &&& size.bytes() <= m[base].size
            &&& size is Size4K || base == pn
        };
    assert(m[base].wf());
    assert(m.dom().contains(base) && base * 4096 <= x && x + size.bytes() <= base * 4096
        + m[base].size);
}

/// A stage of a population asks for what is right.
proof fn lemma_file_stage(
    a: FilePopulateView,
    asked: Option<Request>,
    r: FileShowRun,
    b: FileBackend,
    range: VirtAddrRange,
    flags: MappingFlags,
)
    requires
        congruent(b.inner),
        a.backend == b,
        a.range == range,
        a.flags == flags,
        in_step(a),
        asked matches Some(Request::Query { .. }) ==> a.state is AwaitEntry,
        file_show_steps(a, asked, r),
    ensures
        file_rightly(b, range, flags, r),
        r.machine.backend == b,
        r.machine.range == range,
        r.machine.flags == flags,
        in_step(r.machine),
        r.turn matches Turn::Ask(request) ==> (request is Query ==> r.machine.state is AwaitEntry),
{
    let cache = choose|cache: CacheView| #[trigger]
        cache.wf() && huge_aligned(page_map(cache.pages)) && a.awaits(cache, r.reply) && ({
            let s = a.after(cache, r.reply);
            r.machine == s.next && r.cache == s.cache && r.turn == s.turn
        });
    law_file_population_keeps_in_step(a, cache, r.reply);
    law_file_mapping_shows_the_cache(a, cache, r.reply);
    lemma_file_asks(a, cache, r.reply);
    lemma_file_cache(a, cache, r.reply);
    let m = page_map(r.cache.pages);
    match r.turn {
        Turn::Ask(Request::MapPage { va, paddr, size, flags: _ }) => {
            lemma_offset(b, va, a.pn);
            lemma_shows_from(
                m,
                a.pn,
                r.turn->Ask_0,
                b.inner.offset_page * 4096 + (va - b.inner.start),
            );
        },
        Turn::Ask(Request::Remap { va, .. }) => {
            lemma_offset(b, va, a.pn);
        },
        _ => {},
    }
}

/// A step of a population leaves a cache, and maps small or huge pages.
proof fn lemma_file_cache(t: FilePopulateView, cache: CacheView, reply: Reply)
    requires
        in_step(t),
        t.awaits(cache, reply),
        cache.wf(),
    ensures
        pages_ok(page_map(t.after(cache, reply).cache.pages)),
        t.after(cache, reply).turn matches Turn::Ask(request) ==> (request matches Request::MapPage {
            size,
            ..
        } ==> !(size is Size1G)),
{
    reveal(FilePopulateView::after);
    let m = page_map(cache.pages);
    match (t.state, reply) {
        (FilePopulateState::AwaitEntry, Reply::Entry { .. }) => {
            lemma_touched(cache.pages, t.pn);
            lemma_lookup_map(cache.pages, t.pn);
            if has_key(cache.pages, t.pn) {
                let page = m[t.pn];
                assert(page.wf());
                lemma_placed(cache.pages, t.pn, PageCache { dirty: true, ..page });
                lemma_pages_ok_insert(m, t.pn, PageCache { dirty: true, ..page });
            }
        },
        (FilePopulateState::AwaitEntry, Reply::Fault(PagingError::NotMapped)) => {
            lemma_chunk_order(cache.pages, m, 0, t.pn as int);
            let order = chunk_order(cache.pages, m, 0, t.pn as int);
            let (base, size) = chunk_from(m, 0, t.pn as int);
            let base_pn = match base {
                Some(pn) => pn,
                None => t.pn,
            };
            lemma_fetch_cache(
                t.backend.inner.cache.fetch_of(base_pn, size),
                cache.with_pages(order),
                Reply::Start,
            );
        },
        (FilePopulateState::Fetching, _) => {
            lemma_fetch_cache(t.fetch, cache, reply);
        },
        _ => {},
    }
}

/// A step of a fetch leaves a cache, asks for nothing of the page table, and fails only
/// with a request.
proof fn lemma_fetch_cache(f: PageFetch, cache: CacheView, reply: Reply)
    requires
        cache.wf(),
        f.awaits(reply),
        f.state is AwaitPage || f.state is AwaitRead ==> f.wf(),
    ensures
        pages_ok(page_map(f.after(cache, reply).cache.pages)),
        f.after(cache, reply).turn matches Turn::Ask(request) ==> !(request is MapPage) && !(request
            is Remap) && !(request is Query),
        f.after(cache, reply).turn matches Turn::Finished(Err(_)) ==> reply is Failed,
{
    reveal(PageFetch::after);
    let m = page_map(cache.pages);
    lemma_touched(cache.pages, f.pn);
    match (f.state, reply) {
        (FetchState::Begin, _) => {
            if !has_key(cache.pages, f.pn) && cache.full() {
                lemma_drop_last(cache.pages);
                let n = page_map(cache.pages.drop_last());
                assert forall|p: u32| #[trigger] n.dom().contains(p) implies n[p].wf() by {
                    assert(m.dom().contains(p));
                }
            }
        },
        (FetchState::AwaitPage, Reply::Addr(paddr)) => {
            let page = PageCache { paddr, dirty: false, size: f.size };
            lemma_landed(f, cache, page);
        },
        (FetchState::AwaitRead, Reply::Done) => {
            lemma_landed(f, cache, f.fresh);
        },
        _ => {},
    }
}

/// A page that comes into a cache leaves it one.
proof fn lemma_landed(f: PageFetch, cache: CacheView, page: PageCache)
    requires
        cache.wf(),
        page.wf(),
    ensures
        pages_ok(page_map(pushed(cache.pages, cache.cap, f.pn, page))),
{
    let m = page_map(cache.pages);
    lemma_pushed(cache.pages, cache.cap, f.pn, page);
    let n = page_map(pushed(cache.pages, cache.cap, f.pn, page));
    assert forall|p: u32| #[trigger] n.dom().contains(p) implies n[p].wf() by {
        if p != f.pn {
            assert(m.dom().contains(p));
        }
    }
}

proof fn lemma_file_shows(
    start: FilePopulateView,
    stages: Seq<FileShowRun>,
    i: int,
    b: FileBackend,
    range: VirtAddrRange,
    flags: MappingFlags,
)
    requires
        congruent(b.inner),
        start.backend == b,
        start.range == range,
        start.flags == flags,
        in_step(start),
        file_shows(start, stages),
        0 <= i < stages.len(),
    ensures
        file_rightly(b, range, flags, stages[i]),
        stages[i].machine.backend == b,
        stages[i].machine.range == range,
        stages[i].machine.flags == flags,
        in_step(stages[i].machine),
        stages[i].turn matches Turn::Ask(request) ==> (request is Query ==> stages[i].machine.state
            is AwaitEntry),
    decreases i,
{
    if i == 0 {
        lemma_file_stage(start, None, stages[0], b, range, flags);
    } else {
        lemma_file_shows(start, stages, i - 1, b, range, flags);
        let a = stages[i - 1];
        assert(a.turn matches Turn::Ask(request) && file_show_steps(
            a.machine,
            Some(request),
            stages[i - 1 + 1],
        ));
        lemma_file_stage(a.machine, Some(a.turn->Ask_0), stages[i], b, range, flags);
    }
}

/// Every page that a population of a mapped file asks to be mapped at an address is
/// memory of the cached page that holds the file from there on: as far behind the
/// offset of the mapping in the file as the address is behind its start. It may not
/// be written at first, unless the file has no device. A page that is made writable
/// is the one that was there, and is marked as written in the cache of a file with a
/// device. A population fails only if a request fails, if it starts behind the end
/// of the file, or if its range is not one of small pages.
pub proof fn law_file_population_maps_the_page_of_the_address(
    b: FileBackend,
    range: VirtAddrRange,
    flags: MappingFlags,
    access: MappingFlags,
    m: FilePopulate,
    stages: Seq<FileShowRun>,
)
    requires
        congruent(b.inner),
        call_ensures(FileBackend::populate, (&b, range, flags, access), m),
        file_shows(m@, stages),
    ensures
        file_rightly(b, range, flags, stages.last()),
{
    lemma_file_shows(m@, stages, stages.len() - 1, b, range, flags);
}

/// A page that shows the file from a byte on reads the bytes of the file, where the
/// cache has them.
pub proof fn law_shown_page_reads_the_file(
    m: Map<u32, PageCache>,
    in_memory: bool,
    w: World,
    want: Map<int, u8>,
    paddr: usize,
    size: PageSize,
    x: int,
    i: int,
)
    requires
        coherent(w, in_memory, m, want),
        shows_from(m, paddr, size, x),
        0 <= i < size.bytes(),
        want.dom().contains(x + i),
    ensures
        w.mem[paddr + i] == want[x + i],
{
    let base = choose|base: u32| #[trigger]
        m.dom().contains(base) && base * 4096 <= x && x + size.bytes() <= base * 4096 + m[base].size
            && paddr == m[base].paddr + (x - base * 4096) && (size is Size4K || x == base * 4096);
    assert(holds(m, base, x + i));
    assert(held(w, m, base, x + i) == want[x + i]);
}

/// A stage of a population of shared memory.
pub struct SharedShowRun {
    pub machine: SharedPopulate,
    pub cache: CacheView,
    pub asked: Option<Request>,
    pub reply: Reply,
    pub turn: Turn<usize>,
}

/// Whether a step of a population leads to the stage `b`. Others may have used the
/// cache before.
pub open spec fn shared_show_steps(a: SharedPopulate, asked: Option<Request>, b: SharedShowRun) -> bool {
    b.asked == asked && exists|cache: CacheView| #[trigger]
        cache.wf() && huge_aligned(page_map(cache.pages)) && a.awaits(b.reply) && ({
            let s = a.after(cache, b.reply);
            b.machine == s.next && b.cache == s.cache && b.turn == s.turn
        })
}

/// Whether a population goes from its start through the given stages.
pub open spec fn shared_shows(start: SharedPopulate, stages: Seq<SharedShowRun>) -> bool {
    &&& stages.len() > 0
    &&& shared_show_steps(start, None, stages[0])
    &&& forall|i: int|
        0 <= i < stages.len() - 1 ==> ((#[trigger] stages[i]).turn matches Turn::Ask(request)
            && shared_show_steps(stages[i].machine, Some(request), stages[i + 1]))
}

/// What a stage of a population of shared memory is to ask for or end with.
pub open spec fn shared_rightly(
    b: SharedBackend,
    range: VirtAddrRange,
    flags: MappingFlags,
    r: SharedShowRun,
) -> bool {
    match r.turn {
        Turn::Ask(Request::MapPage { va, paddr, size, flags: rights }) => {
            &&& range.start <= va < range.end
            &&& va as int % 4096 == 0
            &&& shows_from(page_map(r.cache.pages), paddr, size, va - b.inner.start)
            &&& rights == flags
        },
        Turn::Ask(Request::Query { va }) => range.start <= va < range.end && va as int % 4096 == 0,
        Turn::Ask(_) => true,
        Turn::Finished(Ok(_)) => true,
        Turn::Finished(Err(_)) => {
            ||| r.reply is Failed
            ||| r.reply is Fault && !(r.asked matches Some(Request::Query { .. }) && r.reply
                == Reply::Fault(PagingError::NotMapped))
        },
    }
}

/// What a step of a population asks for.
proof fn lemma_shared_asks(t: SharedPopulate, cache: CacheView, reply: Reply)
    requires
        in_place(t),
        t.awaits(reply),
        cache.wf(),
    ensures
        ({
            let s = t.after(cache, reply);
            &&& s.next.backend == t.backend
            &&& s.next.range == t.range
            &&& s.next.flags == t.flags
            &&& match s.turn {
                Turn::Ask(Request::MapPage { va, flags, size, .. }) => {
                    &&& va == t.va
                    &&& t.range.start <= va < t.range.end
                    &&& t.va as int % 4096 == 0
                    &&& (t.va - t.backend.inner.start) / 4096 == t.pn
                    &&& flags == t.flags
                    &&& !(size is Size1G)
                },
                Turn::Ask(Request::Query { va }) => s.next.va == va && s.next.state is AwaitEntry,
                Turn::Ask(_) => !(s.next.state is AwaitEntry),
                Turn::Finished(Ok(_)) => true,
                Turn::Finished(Err(_)) => {
                    ||| reply is Failed
                    ||| reply is Fault && !(t.state is AwaitEntry && reply == Reply::Fault(
                        PagingError::NotMapped,
                    ))
                },
            }
        }),
        pages_ok(page_map(t.after(cache, reply).cache.pages)),
{
    reveal(SharedPopulate::after);
    let m = page_map(cache.pages);
    match (t.state, reply) {
        (PopulateState::AwaitEntry, Reply::Fault(PagingError::NotMapped)) => {
            lemma_chunk_order(cache.pages, m, 0, t.pn as int);
            let order = chunk_order(cache.pages, m, 0, t.pn as int);
            let (base, size) = chunk_from(m, 0, t.pn as int);
            let base_pn = match base {
                Some(pn) => pn,
                None => t.pn,
            };
            lemma_fetch_cache(
                t.backend.inner.cache.fetch_of(base_pn, size),
                cache.with_pages(order),
                Reply::Start,
            );
        },
        (PopulateState::Fetching, _) => {
            lemma_fetch_cache(t.fetch, cache, reply);
        },
        _ => {},
    }
}

/// A stage of a population asks for what is right.
proof fn lemma_shared_stage(
    a: SharedPopulate,
    asked: Option<Request>,
    r: SharedShowRun,
    b: SharedBackend,
    range: VirtAddrRange,
    flags: MappingFlags,
)
    requires
        b.inner.start as int % PAGE_SIZE_2M as int == 0,
        a.backend == b,
        a.range == range,
        a.flags == flags,
        in_place(a),
        asked matches Some(Request::Query { .. }) ==> a.state is AwaitEntry,
        shared_show_steps(a, asked, r),
    ensures
        shared_rightly(b, range, flags, r),
        r.machine.backend == b,
        r.machine.range == range,
        r.machine.flags == flags,
        in_place(r.machine),
        r.turn matches Turn::Ask(request) ==> (request is Query ==> r.machine.state is AwaitEntry),
{
    let cache = choose|cache: CacheView| #[trigger]
        cache.wf() && huge_aligned(page_map(cache.pages)) && a.awaits(r.reply) && ({
            let s = a.after(cache, r.reply);
            r.machine == s.next && r.cache == s.cache && r.turn == s.turn
        });
    law_shared_population_stays_in_place(a, cache, r.reply);
    law_shared_mapping_shows_the_cache(a, cache, r.reply);
    lemma_shared_asks(a, cache, r.reply);
    if let Turn::Ask(Request::MapPage { va, .. }) = r.turn {
        let d = va - b.inner.start;
        assert(b.inner.start as int % 2_097_152 == 0);
        assert(d % 4096 == 0);
        assert(a.pn * 4096 == d);
        lemma_shows_from(page_map(r.cache.pages), a.pn, r.turn->Ask_0, d);
    }
}

proof fn lemma_shared_shows(
    start: SharedPopulate,
    stages: Seq<SharedShowRun>,
    i: int,
    b: SharedBackend,
    range: VirtAddrRange,
    flags: MappingFlags,
)
    requires
        b.inner.start as int % PAGE_SIZE_2M as int == 0,
        start.backend == b,
        start.range == range,
        start.flags == flags,
        in_place(start),
        shared_shows(start, stages),
        0 <= i < stages.len(),
    ensures
        shared_rightly(b, range, flags, stages[i]),
        stages[i].machine.backend == b,
        stages[i].machine.range == range,
        stages[i].machine.flags == flags,
        in_place(stages[i].machine),
        stages[i].turn matches Turn::Ask(request) ==> (request is Query ==> stages[i].machine.state
            is AwaitEntry),
    decreases i,
{
    if i == 0 {
        lemma_shared_stage(start, None, stages[0], b, range, flags);
    } else {
        lemma_shared_shows(start, stages, i - 1, b, range, flags);
        let a = stages[i - 1];
        assert(a.turn matches Turn::Ask(request) && shared_show_steps(
            a.machine,
            Some(request),
            stages[i - 1 + 1],
        ));
        lemma_shared_stage(a.machine, Some(a.turn->Ask_0), stages[i], b, range, flags);
    }
}

/// Every page that a population of shared memory asks to be mapped at an address is
/// memory of the cached page that holds the file from there on: as far behind its
/// start as the address is behind that of the mapping, with the rights that are
/// wanted. A population fails only if a request fails.
pub proof fn law_shared_population_maps_the_page_of_the_address(
    b: SharedBackend,
    range: VirtAddrRange,
    flags: MappingFlags,
    access: MappingFlags,
    m: SharedPopulate,
    stages: Seq<SharedShowRun>,
)
    requires
        b.inner.start as int % 2_097_152 == 0,
        range.start as int % 4096 == 0,
        call_ensures(SharedBackend::populate, (&b, range, flags, access), m),
        shared_shows(m, stages),
    ensures
        shared_rightly(b, range, flags, stages.last()),
{
    lemma_shared_shows(m, stages, stages.len() - 1, b, range, flags);
}

} // verus!
