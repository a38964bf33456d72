//! Fetching a page keeps the contents of the file.

use vstd::prelude::*;
use crate::addr::PAGE_SIZE_4K;
use crate::effect::{Effect, Reply, Request, Turn};
use crate::error::VfsError;
use crate::fs::cache::{pages_ok, CacheView};
use crate::fs::cached_file::CachedFile;
use crate::fs::chunks::step;
use crate::fs::evict::{page_start, writeback, EvictState};
use crate::fs::fetch::{Fetched, FetchState, FetchStep, PageFetch};
use crate::fs::page::{PageCache, PageOperation};
use crate::fs::recency::{
    has_key, lemma_drop_last, lemma_lookup_map, lemma_pushed, lemma_touched, page_map,
};
use crate::fs::world::{
    area, available, backing, coherent, disjoint, held, holds, laid_out, lemma_notices,
    lemma_one_holder, lemma_performed_one, lemma_put_in, lemma_taken_out, loaded, owned, stored,
    uncached, zeros, World,
};

verus! {

/// Whether a small page that is not cached starts no cached page and lies in
/// none.
pub open spec fn on_boundary(m: Map<u32, PageCache>, pn: u32) -> bool {
    forall|p: u32| #[trigger] m.dom().contains(p) && p < pn ==> p + step(m, p as int) <= pn
}

/// Whether a page that is not in the cache lies beside the cached ones in memory,
/// and is not free.
pub open spec fn beside(w: World, m: Map<u32, PageCache>, page: PageCache) -> bool {
    &&& page.wf()
    &&& owned(w, page)
    &&& forall|p: u32| #[trigger] m.dom().contains(p) ==> disjoint(m[p], page)
}

/// Whether a page that has left the cache, if there is one, lies beside the
/// cached ones.
pub open spec fn left_beside(w: World, m: Map<u32, PageCache>, evicted: Option<(u32, PageCache)>) -> bool {
    evicted matches Some(entry) ==> beside(w, m, entry.1)
}

/// The cached pages, and the page that is on its way out with its contents.
pub open spec fn with_leaving(f: PageFetch, cache: CacheView) -> Map<u32, PageCache> {
    if f.state is Evicting {
        page_map(cache.pages).insert(f.eviction.pn, f.eviction.page)
    } else {
        page_map(cache.pages)
    }
}

/// What holds of a fetch that has not begun: the cache has the wanted bytes, the
/// page lies in no other, and a file without a device needs no page to leave.
pub open spec fn fetch_ready(f: PageFetch, cache: CacheView, w: World, want: Map<int, u8>) -> bool {
    &&& f.wf()
    &&& f.size == PAGE_SIZE_4K
    &&& f.state is Begin
    &&& f.evicted is None
    &&& cache.wf()
    &&& f.in_memory ==> !cache.full()
    &&& on_boundary(page_map(cache.pages), f.pn)
    &&& coherent(w, f.in_memory, page_map(cache.pages), want)
}

/// What holds of a fetch that waits for the answer to `ask`.
pub open spec fn fetch_waits(
    f: PageFetch,
    cache: CacheView,
    w: World,
    want: Map<int, u8>,
    ask: Request,
) -> bool {
    let m = with_leaving(f, cache);
    &&& f.wf()
    &&& f.size == PAGE_SIZE_4K
    &&& cache.wf()
    &&& !cache.full()
    &&& on_boundary(m, f.pn)
    &&& !m.dom().contains(f.pn)
    &&& coherent(w, f.in_memory, m, want)
    &&& match f.state {
        FetchState::Evicting => {
            &&& !f.in_memory
            &&& f.evicted is None
            &&& f.eviction.page.dirty
            &&& !page_map(cache.pages).dom().contains(f.eviction.pn)
            &&& match f.eviction.state {
                EvictState::Begin => false,
                EvictState::AwaitLen => ask == Request::FileLen,
                EvictState::AwaitWrite => w.file.len() <= u64::MAX && Some(ask) == writeback(
                    f.eviction.pn,
                    f.eviction.page,
                    w.file.len() as u64,
                ),
            }
        },
        FetchState::AwaitPage => {
            &&& ask == Request::AllocPage { bytes: f.size }
            &&& left_beside(w, m, f.evicted)
        },
        FetchState::AwaitRead => {
            &&& !f.in_memory
            &&& ask == Request::FileRead {
                paddr: f.fresh.paddr,
                len: f.size,
                offset: page_start(f.pn) as u64,
            }
            &&& !f.fresh.dirty
            &&& beside(w, m, f.fresh)
            &&& left_beside(w, m, f.evicted)
            &&& f.evicted matches Some(entry) ==> disjoint(entry.1, f.fresh)
        },
        _ => false,
    }
}

/// What holds of a fetch that is over.
pub open spec fn fetch_done(
    f: PageFetch,
    fetched: Fetched,
    cache: CacheView,
    w: World,
    want: Map<int, u8>,
) -> bool {
    let m = page_map(cache.pages);
    &&& cache.wf()
    &&& coherent(w, f.in_memory, m, want)
    &&& on_boundary(m, f.pn)
    &&& m.dom().contains(f.pn)
    &&& m[f.pn] == fetched.page
    &&& left_beside(w, m, fetched.evicted)
}

/// What holds after a step of a fetch.
pub open spec fn fetch_steps(f: PageFetch, s: FetchStep, w: World, want: Map<int, u8>) -> bool {
    &&& s.next.pn == f.pn
    &&& s.next.in_memory == f.in_memory
    &&& match s.turn {
        Turn::Ask(request) => fetch_waits(s.next, s.cache, w, want, request),
        Turn::Finished(Ok(fetched)) => fetch_done(f, fetched, s.cache, w, want),
        Turn::Finished(Err(_)) => false,
    }
}

/// What a fetch leaves alone: the length of the file, and the two sides of a
/// transfer.
pub open spec fn same_sides(a: World, b: World) -> bool {
    &&& a.file.len() == b.file.len()
    &&& a.input == b.input
    &&& a.output == b.output
}

/// A clean page of a file with a device can leave: the file has its bytes.
pub proof fn lemma_clean_leaves(w: World, m: Map<u32, PageCache>, want: Map<int, u8>, pn: u32)
    requires
        coherent(w, false, m, want),
        m.dom().contains(pn),
        !m[pn].dirty,
    ensures
        coherent(w, false, m.remove(pn), want),
        beside(w, m.remove(pn), m[pn]),
{
    let n = m.remove(pn);
    lemma_taken_out(w, m, pn);
    assert forall|b: int, p: u32|
        #![trigger want.dom().contains(b), holds(n, p, b)]
        want.dom().contains(b) && holds(n, p, b) implies held(w, n, p, b) == want[b] && (n[p].dirty
        || w.file[b] == want[b]) by {
        assert(holds(m, p, b));
    }
    assert forall|b: int| #[trigger] want.dom().contains(b) && uncached(n, b) implies backing(
        w,
        false,
        b,
    ) == want[b] by {
        if holds(m, pn, b) {
        } else {
            assert forall|p: u32| !#[trigger] holds(m, p, b) by {
                assert(!holds(n, p, b));
            }
            assert(uncached(m, b));
        }
    }
    assert forall|p: u32| #[trigger] n.dom().contains(p) implies disjoint(n[p], m[pn]) by {
        assert(m.dom().contains(p) && m.dom().contains(pn));
    }
}

/// A dirty page of a file with a device can leave once the part of it that is in
/// the file was written back.
pub proof fn lemma_written_leaves(
    w: World,
    after: World,
    m: Map<u32, PageCache>,
    want: Map<int, u8>,
    pn: u32,
)
    requires
        coherent(w, false, m, want),
        m.dom().contains(pn),
        w.file.len() <= u64::MAX,
        writeback(pn, m[pn], w.file.len() as u64) matches Some(request) && w.answers(
            request,
            Reply::Done,
            after,
        ),
    ensures
        coherent(after, false, m.remove(pn), want),
        beside(after, m.remove(pn), m[pn]),
        same_sides(w, after),
        after.free == w.free,
        after.mem == w.mem,
{
    let n = m.remove(pn);
    let page = m[pn];
    let start = page_start(pn);
    assert(page.wf());
    lemma_taken_out(w, m, pn);
    assert(laid_out(after, n)) by {
        assert forall|p: u32| #[trigger] n.dom().contains(p) implies owned(after, n[p]) by {
            assert(owned(w, n[p]));
        }
    }
    assert forall|b: int| 0 <= b < w.file.len() && !(start <= b < start + page.size) implies after.file[b]
        == w.file[b] by {}
    assert forall|b: int, p: u32|
        #![trigger want.dom().contains(b), holds(n, p, b)]
        want.dom().contains(b) && holds(n, p, b) implies held(after, n, p, b) == want[b] && (n[p].dirty
        || after.file[b] == want[b]) by {
        assert(holds(m, p, b));
        if holds(m, pn, b) {
            lemma_one_holder(m, p, pn, b);
        }
    }
    assert forall|b: int| #[trigger] want.dom().contains(b) && uncached(n, b) implies backing(
        after,
        false,
        b,
    ) == want[b] by {
        if holds(m, pn, b) {
            assert(held(w, m, pn, b) == want[b]);
            let len = if w.file.len() - start < page.size {
                (w.file.len() - start) as nat
            } else {
                page.size as nat
            };
            assert(after.file[b] == loaded(w.mem, page.paddr as int, len)[b - start]);
        } else {
            assert forall|p: u32| !#[trigger] holds(m, p, b) by {
                assert(!holds(n, p, b));
            }
            assert(uncached(m, b));
        }
    }
    assert forall|p: u32| #[trigger] n.dom().contains(p) implies disjoint(n[p], page) by {
        assert(m.dom().contains(p) && m.dom().contains(pn));
    }
    assert(owned(after, page)) by {
        assert(owned(w, page));
    }
}

/// A dirty page that lies behind the end of the file can leave: no byte is lost.
pub proof fn lemma_behind_leaves(w: World, m: Map<u32, PageCache>, want: Map<int, u8>, pn: u32)
    requires
        coherent(w, false, m, want),
        m.dom().contains(pn),
        w.file.len() <= page_start(pn),
    ensures
        coherent(w, false, m.remove(pn), want),
        beside(w, m.remove(pn), m[pn]),
{
    let n = m.remove(pn);
    lemma_taken_out(w, m, pn);
    assert forall|b: int, p: u32|
        #![trigger want.dom().contains(b), holds(n, p, b)]
        want.dom().contains(b) && holds(n, p, b) implies held(w, n, p, b) == want[b] && (n[p].dirty
        || w.file[b] == want[b]) by {
        assert(holds(m, p, b));
    }
    assert forall|b: int| #[trigger] want.dom().contains(b) && uncached(n, b) implies backing(
        w,
        false,
        b,
    ) == want[b] by {
        assert forall|p: u32| !#[trigger] holds(m, p, b) by {
            assert(!holds(n, p, b));
        }
        assert(uncached(m, b));
    }
    assert forall|p: u32| #[trigger] n.dom().contains(p) implies disjoint(n[p], m[pn]) by {
        assert(m.dom().contains(p) && m.dom().contains(pn));
    }
}

/// Memory that is taken from what is free lies beside every page that is not.
proof fn lemma_allocated(w: World, after: World, page: PageCache, other: PageCache)
    requires
        page.wf(),
        other.wf(),
        area(page.paddr as int, page.size as int).subset_of(w.free),
        after.free == w.free.difference(area(page.paddr as int, page.size as int)),
        owned(w, other),
    ensures
        disjoint(other, page),
        owned(after, other),
        owned(after, page),
{
    let common = if other.paddr < page.paddr {
        page.paddr as int
    } else {
        other.paddr as int
    };
    if !disjoint(other, page) {
        assert(area(page.paddr as int, page.size as int).contains(common));
        assert(w.free.contains(common));
    }
    assert forall|x: int| other.paddr <= x < other.paddr + other.size implies !#[trigger] after.free.contains(
        x,
    ) by {
        assert(!w.free.contains(x));
    }
    assert forall|x: int| page.paddr <= x < page.paddr + page.size implies !#[trigger] after.free.contains(
        x,
    ) by {
        assert(area(page.paddr as int, page.size as int).contains(x));
    }
}

/// A world with other memory outside the cached pages and with less that is free
/// has the same bytes of the file.
pub proof fn lemma_other_memory(
    w: World,
    after: World,
    in_memory: bool,
    m: Map<u32, PageCache>,
    want: Map<int, u8>,
)
    requires
        coherent(w, in_memory, m, want),
        after.file == w.file,
        forall|a: int| #[trigger] after.free.contains(a) ==> w.free.contains(a),
        forall|p: u32, a: int|
            #![trigger m.dom().contains(p), after.mem[a]]
            m.dom().contains(p) && m[p].paddr <= a < m[p].paddr + m[p].size ==> after.mem[a]
                == w.mem[a],
    ensures
        coherent(after, in_memory, m, want),
{
    assert forall|p: u32| #[trigger] m.dom().contains(p) implies owned(after, m[p]) by {
        assert(owned(w, m[p]));
    }
    assert forall|b: int, p: u32|
        #![trigger want.dom().contains(b), holds(m, p, b)]
        want.dom().contains(b) && holds(m, p, b) implies held(after, m, p, b) == want[b] && (
    in_memory || m[p].dirty || after.file[b] == want[b]) by {
        assert(m.dom().contains(p));
        assert(held(w, m, p, b) == want[b]);
        let a = m[p].paddr + (b - p * PAGE_SIZE_4K);
        assert(after.mem[a] == w.mem[a]);
    }
    assert forall|b: int| #[trigger] want.dom().contains(b) && uncached(m, b) implies backing(
        after,
        in_memory,
        b,
    ) == want[b] by {
        assert(backing(w, in_memory, b) == want[b]);
    }
}

/// A fresh small page that has the bytes of the file can be put into the cache.
pub proof fn lemma_filled(
    w: World,
    in_memory: bool,
    m: Map<u32, PageCache>,
    want: Map<int, u8>,
    pn: u32,
    page: PageCache,
)
    requires
        coherent(w, in_memory, m, want),
        on_boundary(m, pn),
        !m.dom().contains(pn),
        beside(w, m, page),
        page.size == PAGE_SIZE_4K,
        !page.dirty,
        forall|b: int|
            pn * PAGE_SIZE_4K <= b < pn * PAGE_SIZE_4K + PAGE_SIZE_4K && b < w.file.len() ==> w.mem[page.paddr
                + (b - pn * PAGE_SIZE_4K)] == #[trigger] backing(w, in_memory, b),
    ensures
        coherent(w, in_memory, m.insert(pn, page), want),
        on_boundary(m.insert(pn, page), pn),
{
    let n = m.insert(pn, page);
    assert forall|p: u32| #[trigger] m.dom().contains(p) implies p != pn && disjoint(m[p], page) && (p
        < pn ==> p + step(m, p as int) <= pn) && (pn < p ==> pn + page.size / PAGE_SIZE_4K <= p) by {}
    lemma_put_in(w, m, pn, page);
    assert forall|b: int, p: u32|
        #![trigger want.dom().contains(b), holds(n, p, b)]
        want.dom().contains(b) && holds(n, p, b) implies held(w, n, p, b) == want[b] && (in_memory
        || n[p].dirty || w.file[b] == want[b]) by {
        if p == pn {
            assert forall|q: u32| !#[trigger] holds(m, q, b) by {
                if holds(m, q, b) {
                    assert(m.dom().contains(q));
                    assert(m[q].wf());
                    if q < pn {
                        assert(q + step(m, q as int) <= pn);
                    }
                }
            }
            assert(uncached(m, b));
            assert(backing(w, in_memory, b) == want[b]);
        } else {
            assert(holds(m, p, b));
        }
    }
    assert forall|b: int| #[trigger] want.dom().contains(b) && uncached(n, b) implies backing(
        w,
        in_memory,
        b,
    ) == want[b] by {
        assert forall|p: u32| !#[trigger] holds(m, p, b) by {
            assert(!holds(n, p, b));
        }
        assert(uncached(m, b));
    }
    assert forall|p: u32| #[trigger] n.dom().contains(p) && p < pn implies p + step(n, p as int)
        <= pn by {
        assert(m.dom().contains(p));
        assert(step(n, p as int) == step(m, p as int));
    }
}

/// A page that is not cached any more stays beside the cached ones when a page
/// that lies beside it is put in.
proof fn lemma_still_beside(w: World, m: Map<u32, PageCache>, page: PageCache, pn: u32, new: PageCache)
    requires
        beside(w, m, page),
        disjoint(page, new),
    ensures
        beside(w, m.insert(pn, new), page),
{
    let n = m.insert(pn, new);
    assert forall|p: u32| #[trigger] n.dom().contains(p) implies disjoint(n[p], page) by {
        if p != pn {
            assert(m.dom().contains(p));
        }
    }
}

/// The first step of a fetch keeps the wanted bytes.
pub proof fn lemma_fetch_begins(f: PageFetch, cache: CacheView, w: World, want: Map<int, u8>)
    requires
        fetch_ready(f, cache, w, want),
    ensures
        ({
            let s = f.after(cache, Reply::Start);
            let after = w.all_performed(s.effects);
            fetch_steps(f, s, after, want) && same_sides(w, after)
        }),
{
    reveal(PageFetch::after);
    let s = f.after(cache, Reply::Start);
    let m = page_map(cache.pages);
    let after = w.all_performed(s.effects);
    lemma_lookup_map(cache.pages, f.pn);
    if has_key(cache.pages, f.pn) {
        lemma_touched(cache.pages, f.pn);
        assert(after == w);
        assert(m.dom().contains(f.pn));
        assert(s.cache.wf());
    } else if cache.full() {
        let (vpn, page) = cache.pages.last();
        let rest = cache.with_pages(cache.pages.drop_last());
        lemma_drop_last(cache.pages);
        lemma_notices(w, rest, vpn, page, PageOperation::Unmap);
        assert(rest.wf()) by {
            assert(pages_ok(page_map(rest.pages))) by {
                assert forall|p: u32| #[trigger] page_map(rest.pages).dom().contains(p) implies page_map(
                    rest.pages,
                )[p].wf() by {
                    assert(m.dom().contains(p));
                }
            }
        }
        if page.dirty {
            assert(with_leaving(s.next, s.cache) =~= m);
            assert(after == w);
        } else {
            assert(after == w);
            lemma_clean_leaves(w, m, want, vpn);
            let n = page_map(rest.pages);
            assert(n =~= m.remove(vpn));
            assert forall|p: u32| #[trigger] n.dom().contains(p) && p < f.pn implies p + step(
                n,
                p as int,
            ) <= f.pn by {
                assert(m.dom().contains(p));
                assert(step(n, p as int) == step(m, p as int));
            }
        }
    } else {
        assert(after == w);
    }
}

/// A step of a fetch that was answered keeps the wanted bytes.
#[verifier::rlimit(40)]
pub proof fn lemma_fetch_goes_on(
    f: PageFetch,
    cache: CacheView,
    w: World,
    want: Map<int, u8>,
    ask: Request,
    reply: Reply,
    answered: World,
)
    requires
        fetch_waits(f, cache, w, want, ask),
        w.answers(ask, reply, answered),
    ensures
        f.awaits(reply),
        ({
            let s = f.after(cache, reply);
            let after = answered.all_performed(s.effects);
            fetch_steps(f, s, after, want) && same_sides(w, after)
        }),
{
    reveal(PageFetch::after);
    let s = f.after(cache, reply);
    let after = answered.all_performed(s.effects);
    let m = with_leaving(f, cache);
    match f.state {
        FetchState::Evicting => {
            let (vpn, page) = (f.eviction.pn, f.eviction.page);
            let n = page_map(cache.pages);
            assert(m.remove(vpn) =~= n);
            assert(m[vpn] == page);
            assert(after == answered);
            assert forall|p: u32| #[trigger] n.dom().contains(p) && p < f.pn implies p + step(
                n,
                p as int,
            ) <= f.pn by {
                assert(m.dom().contains(p));
                assert(step(n, p as int) == step(m, p as int));
            }
            match f.eviction.state {
                EvictState::AwaitLen => {
                    if page_start(vpn) < w.file.len() {
                        assert(with_leaving(s.next, s.cache) =~= m);
                    } else {
                        lemma_behind_leaves(w, m, want, vpn);
                        lemma_cleaned_beside(w, n, page);
                    }
                },
                EvictState::AwaitWrite => {
                    lemma_written_leaves(w, answered, m, want, vpn);
                    lemma_cleaned_beside(answered, n, page);
                },
                EvictState::Begin => {},
            }
        },
        FetchState::AwaitPage => {
            lemma_fetch_page(f, cache, w, want, reply, answered);
        },
        FetchState::AwaitRead => {
            assert(after == answered);
            lemma_fetch_read(f, cache, w, want, reply, answered);
        },
        _ => {},
    }
}

/// Whether a page is written or not does not matter to where it lies.
proof fn lemma_cleaned_beside(w: World, m: Map<u32, PageCache>, page: PageCache)
    requires
        beside(w, m, page),
    ensures
        beside(w, m, crate::fs::evict::cleaned(page)),
{
    let c = crate::fs::evict::cleaned(page);
    assert forall|p: u32| #[trigger] m.dom().contains(p) implies disjoint(m[p], c) by {
        assert(disjoint(m[p], page));
    }
    assert(owned(w, c)) by {
        assert(owned(w, page));
    }
}

proof fn lemma_fetch_page(
    f: PageFetch,
    cache: CacheView,
    w: World,
    want: Map<int, u8>,
    reply: Reply,
    answered: World,
)
    requires
        fetch_waits(f, cache, w, want, Request::AllocPage { bytes: f.size }),
        f.state is AwaitPage,
        w.answers(Request::AllocPage { bytes: f.size }, reply, answered),
    ensures
        f.awaits(reply),
        ({
            let s = f.after(cache, reply);
            let after = answered.all_performed(s.effects);
            fetch_steps(f, s, after, want) && same_sides(w, after)
        }),
{
    reveal(PageFetch::after);
    let s = f.after(cache, reply);
    let after = answered.all_performed(s.effects);
    let m = page_map(cache.pages);
    if let Reply::Addr(paddr) = reply {
        let page = PageCache { paddr, dirty: false, size: f.size };
        assert forall|p: u32| #[trigger] m.dom().contains(p) implies disjoint(m[p], page) && owned(
            answered,
            m[p],
        ) by {
            assert(m[p].wf());
            assert(owned(w, m[p]));
            lemma_allocated(w, answered, page, m[p]);
        }
        assert(owned(answered, page)) by {
            assert forall|x: int| page.paddr <= x < page.paddr + page.size implies !#[trigger] answered.free.contains(
                x,
            ) by {
                assert(area(page.paddr as int, page.size as int).contains(x));
            }
        }
        assert forall|a: int| #[trigger] answered.free.contains(a) implies w.free.contains(a) by {}
        lemma_other_memory(w, answered, f.in_memory, m, want);
        assert(beside(answered, m, page));
        if let Some(entry) = f.evicted {
            lemma_allocated(w, answered, page, entry.1);
            assert(beside(answered, m, entry.1));
        }
        if f.in_memory {
            lemma_performed_one(answered, Effect::Zero { paddr, len: f.size });
            assert forall|p: u32, a: int|
                #![trigger m.dom().contains(p), after.mem[a]]
                m.dom().contains(p) && m[p].paddr <= a < m[p].paddr + m[p].size implies after.mem[a]
                == answered.mem[a] by {
                assert(disjoint(m[p], page));
            }
            lemma_other_memory(answered, after, true, m, want);
            assert(beside(after, m, page)) by {
                assert(owned(answered, page));
            }
            assert forall|b: int|
                f.pn * PAGE_SIZE_4K <= b < f.pn * PAGE_SIZE_4K + PAGE_SIZE_4K && b
                    < after.file.len() implies after.mem[page.paddr + (b - f.pn * PAGE_SIZE_4K)]
                == #[trigger] backing(after, true, b) by {
                let a = page.paddr + (b - f.pn * PAGE_SIZE_4K);
                assert(zeros(f.size as nat)[a - page.paddr] == 0u8);
            }
            lemma_filled(after, true, m, want, f.pn, page);
            lemma_pushed(cache.pages, cache.cap, f.pn, page);
            if let Some(entry) = f.evicted {
                assert(beside(after, m, entry.1)) by {
                    assert(owned(answered, entry.1));
                }
                lemma_still_beside(after, m, entry.1, f.pn, page);
            }
            assert(s.cache.wf()) by {
                lemma_pages_ok_insert(m, f.pn, page);
            }
        } else {
            assert(after == answered);
        }
    }
}

/// A well-formed page among well-formed ones.
pub proof fn lemma_pages_ok_insert(m: Map<u32, PageCache>, pn: u32, page: PageCache)
    requires
        pages_ok(m),
        page.wf(),
    ensures
        pages_ok(m.insert(pn, page)),
{
    let n = m.insert(pn, page);
    assert forall|p: u32| #[trigger] n.dom().contains(p) implies n[p].wf() by {
        if p != pn {
            assert(m.dom().contains(p));
        }
    }
}

proof fn lemma_fetch_read(
    f: PageFetch,
    cache: CacheView,
    w: World,
    want: Map<int, u8>,
    reply: Reply,
    answered: World,
)
    requires
        f.state is AwaitRead,
        fetch_waits(
            f,
            cache,
            w,
            want,
            Request::FileRead {
                paddr: f.fresh.paddr,
                len: f.size,
                offset: page_start(f.pn) as u64,
            },
        ),
        w.answers(
            Request::FileRead {
                paddr: f.fresh.paddr,
                len: f.size,
                offset: page_start(f.pn) as u64,
            },
            reply,
            answered,
        ),
    ensures
        f.awaits(reply),
        ({
            let s = f.after(cache, reply);
            fetch_steps(f, s, answered, want) && same_sides(w, answered) && s.effects.len() == 0
        }),
{
    reveal(PageFetch::after);
    let s = f.after(cache, reply);
    let m = page_map(cache.pages);
    let page = f.fresh;
    let start = page_start(f.pn);
    let n = available(w.file, start as nat, f.size as nat);
    let bytes = Seq::new(n, |i: int| w.file[start + i]);
    assert(answered.mem == stored(w.mem, page.paddr as int, bytes)) by {
        assert(Seq::new(n, |i: int| w.file[(start as u64) + i]) =~= bytes);
    }
    assert forall|p: u32, a: int|
        #![trigger m.dom().contains(p), answered.mem[a]]
        m.dom().contains(p) && m[p].paddr <= a < m[p].paddr + m[p].size implies answered.mem[a]
        == w.mem[a] by {
        assert(disjoint(m[p], page));
    }
    lemma_other_memory(w, answered, false, m, want);
    assert(beside(answered, m, page)) by {
        assert(owned(w, page));
    }
    assert forall|b: int|
        f.pn * PAGE_SIZE_4K <= b < f.pn * PAGE_SIZE_4K + PAGE_SIZE_4K && b < answered.file.len() implies answered.mem[page.paddr
        + (b - f.pn * PAGE_SIZE_4K)] == #[trigger] backing(answered, false, b) by {
        let a = page.paddr + (b - f.pn * PAGE_SIZE_4K);
        assert(bytes[a - page.paddr] == w.file[b]);
    }
    lemma_filled(answered, false, m, want, f.pn, page);
    lemma_pushed(cache.pages, cache.cap, f.pn, page);
    if let Some(entry) = f.evicted {
        assert(beside(answered, m, entry.1)) by {
            assert(owned(w, entry.1));
        }
        lemma_still_beside(answered, m, entry.1, f.pn, page);
    }
    assert(s.cache.wf()) by {
        lemma_pages_ok_insert(m, f.pn, page);
    }
}

/// A page that is cached is found as it is, and nothing is asked for. For any other,
/// memory of its size is asked for, once there is room for it. What comes is all zeros
/// for a file in memory; otherwise the whole page is read from the place in the file
/// that its number tells. Then it is the page that was fetched, clean, and in the cache.
pub proof fn law_fetched_page_is_that_of_its_number(
    file: CachedFile,
    pn: u32,
    size: usize,
    f: PageFetch,
    cache: CacheView,
    paddr: usize,
)
    requires
        cache.wf(),
        call_ensures(CachedFile::with_page_or_insert, (&file, pn, size), f),
    ensures
        ({
            let m = page_map(cache.pages);
            let s = f.after(cache, Reply::Start);
            &&& m.dom().contains(pn) ==> {
                &&& s.turn == Turn::Finished(
                    Ok::<Fetched, VfsError>(Fetched { page: m[pn], evicted: None }),
                )
                &&& s.effects.len() == 0
                &&& page_map(s.cache.pages) == m
            }
            &&& !m.dom().contains(pn) && cache.pages.len() < cache.cap ==> {
                let fresh = PageCache { paddr, dirty: false, size };
                let t = s.next.after(s.cache, Reply::Addr(paddr));
                let u = t.next.after(t.cache, Reply::Done);
                let last = if file.in_memory {
                    t
                } else {
                    u
                };
                &&& s.turn == Turn::<Fetched>::Ask(Request::AllocPage { bytes: size })
                &&& s.effects.len() == 0 && s.cache == cache
                &&& file.in_memory ==> t.effects == seq![Effect::Zero { paddr, len: size }]
                &&& !file.in_memory ==> {
                    &&& t.turn == Turn::<Fetched>::Ask(
                        Request::FileRead { paddr, len: size, offset: (pn * 4096) as u64 },
                    )
                    &&& t.effects.len() == 0 && u.effects.len() == 0
                    &&& t.cache == cache
                }
                &&& last.turn == Turn::Finished(
                    Ok::<Fetched, VfsError>(Fetched { page: fresh, evicted: None }),
                )
                &&& page_map(last.cache.pages) == m.insert(pn, fresh)
            }
        }),
{
    reveal(PageFetch::after);
    lemma_lookup_map(cache.pages, pn);
    lemma_touched(cache.pages, pn);
    lemma_pushed(cache.pages, cache.cap, pn, PageCache { paddr, dirty: false, size });
}

} // verus!
