//! Merging small pages into a huge one keeps the contents of the file.

use vstd::prelude::*;
use crate::addr::{PAGE_SIZE_2M, PAGE_SIZE_4K, THP_NR_4K_PAGES};
use crate::effect::{Effect, Reply, Request, Turn};
use crate::fs::cache::{pages_ok, CacheView};
use crate::fs::cached_file::CachedFile;
use crate::fs::chunks::step;
use crate::fs::evict::cleaned;
use crate::fs::fetch::freed;
use crate::fs::fetch_law::{lemma_pages_ok_insert, on_boundary};
use crate::fs::merge::{copies, retracts, swept, swept_over, unmaps, vacated, vacates, Merge};
use crate::fs::page::PageCache;
use crate::fs::recency::{
    distinct, has_key, lemma_lookup_map, lemma_pushed, lemma_touched, lemma_without, lookup,
    page_map,
};
use crate::fs::world::{
    area, backing, coherent, disjoint, held, holds, laid_out, lemma_only_notices,
    lemma_performed_concat, lemma_performed_one, loaded, only_notices, owned, stored, uncached,
    World,
};

verus! {

/// Using pages changes their order alone.
pub proof fn lemma_swept(s: Seq<(u32, PageCache)>, start: u32, n: nat)
    requires
        distinct(s),
    ensures
        distinct(swept(s, start, n)),
        page_map(swept(s, start, n)) == page_map(s),
        swept(s, start, n).len() == s.len(),
    decreases n,
{
    if n > 0 {
        lemma_swept(s, start, (n - 1) as nat);
        lemma_touched(swept(s, start, (n - 1) as nat), (start + n - 1) as u32);
    }
}

pub proof fn lemma_swept_over(s: Seq<(u32, PageCache)>, start: u32, rounds: nat)
    requires
        distinct(s),
    ensures
        distinct(swept_over(s, start, rounds)),
        page_map(swept_over(s, start, rounds)) == page_map(s),
        swept_over(s, start, rounds).len() == s.len(),
    decreases rounds,
{
    if rounds > 0 {
        lemma_swept_over(s, start, (rounds - 1) as nat);
        lemma_swept(
            swept_over(s, start, (rounds - 1) as nat),
            start,
            THP_NR_4K_PAGES as nat,
        );
    }
}

proof fn lemma_unmaps(s: Seq<(u32, PageCache)>, start: u32, n: nat, listener: usize)
    ensures
        only_notices(unmaps(s, start, n, listener)),
    decreases n,
{
    if n > 0 {
        lemma_unmaps(s, start, (n - 1) as nat, listener);
    }
}

proof fn lemma_retracts(cache: CacheView, start: u32, rounds: nat)
    ensures
        only_notices(retracts(cache, start, rounds)),
    decreases rounds,
{
    if rounds > 0 {
        lemma_retracts(cache, start, (rounds - 1) as nat);
        lemma_unmaps(
            swept_over(cache.pages, start, (rounds - 1) as nat),
            start,
            THP_NR_4K_PAGES as nat,
            cache.listeners[rounds - 1],
        );
    }
}

/// Before there is a huge page, the listeners are told and nothing else
/// happens.
pub proof fn law_merge_begins_with_notices(t: Merge, cache: CacheView, w: World)
    requires
        t.state is Begin,
        cache.wf(),
    ensures
        ({
            let s = t.after(cache, Reply::Start);
            &&& s.turn == Turn::<usize>::Ask(Request::AllocPage { bytes: PAGE_SIZE_2M })
            &&& w.all_performed(s.effects) == w
            &&& s.cache.wf()
            &&& page_map(s.cache.pages) == page_map(cache.pages)
        }),
{
    lemma_retracts(cache, t.start_pn, cache.listeners.len());
    lemma_only_notices(w, retracts(cache, t.start_pn, cache.listeners.len()));
    lemma_swept_over(cache.pages, t.start_pn, cache.listeners.len());
}

/// Whether a page number is one of the window of a huge page.
pub open spec fn in_window(start: u32, p: u32) -> bool {
    start <= p < start + THP_NR_4K_PAGES
}

/// Taking the first pages of a window out.
pub proof fn lemma_vacated(s: Seq<(u32, PageCache)>, start: u32, n: nat)
    requires
        distinct(s),
        start + n <= u32::MAX,
    ensures
        distinct(vacated(s, start, n)),
        vacated(s, start, n).len() <= s.len(),
        page_map(vacated(s, start, n)) == page_map(s).remove_keys(
            Set::new(|p: u32| start <= p < start + n),
        ),
    decreases n,
{
    if n > 0 {
        let k = (n - 1) as nat;
        lemma_vacated(s, start, k);
        lemma_without(vacated(s, start, k), (start + n - 1) as u32);
        assert(page_map(vacated(s, start, n)) =~= page_map(s).remove_keys(
            Set::new(|p: u32| start <= p < start + n),
        ));
    } else {
        assert(page_map(s).remove_keys(Set::new(|p: u32| start <= p < start + n)) =~= page_map(s));
    }
}

/// Whether `mem` is `old` with the first `n` pages of a window copied to their
/// places in a huge page.
pub open spec fn copied(
    mem: Map<int, u8>,
    old: Map<int, u8>,
    m: Map<u32, PageCache>,
    start: u32,
    huge: int,
    n: int,
) -> bool {
    &&& forall|a: int| !(huge <= a < huge + PAGE_SIZE_2M) ==> #[trigger] mem[a] == old[a]
    &&& forall|p: u32, x: int|
        #![trigger m.dom().contains(p), mem[huge + x]]
        m.dom().contains(p) && start <= p < start + n && (p - start) * PAGE_SIZE_4K <= x < (p - start)
            * PAGE_SIZE_4K + PAGE_SIZE_4K ==> mem[huge + x] == old[m[p].paddr + (x - (p - start)
            * PAGE_SIZE_4K)]
}

/// The copies put each page of the window into its place.
proof fn lemma_copies(w: World, s: Seq<(u32, PageCache)>, start: u32, n: nat, huge: usize)
    requires
        distinct(s),
        n <= THP_NR_4K_PAGES,
        start + THP_NR_4K_PAGES <= u32::MAX,
        huge + PAGE_SIZE_2M <= usize::MAX,
        forall|p: u32| #[trigger]
            page_map(s).dom().contains(p) && start <= p < start + n ==> page_map(s)[p].size
                == PAGE_SIZE_4K,
        forall|p: u32| #[trigger]
            page_map(s).dom().contains(p) ==> disjoint(
                page_map(s)[p],
                PageCache { paddr: huge, dirty: false, size: PAGE_SIZE_2M },
            ),
    ensures
        ({
            let after = w.all_performed(copies(s, start, n, huge));
            &&& copied(after.mem, w.mem, page_map(s), start, huge as int, n as int)
            &&& after.file == w.file
            &&& after.free == w.free
            &&& after.input == w.input
            &&& after.output == w.output
        }),
    decreases n,
{
    let m = page_map(s);
    if n > 0 {
        let k = (n - 1) as nat;
        let pn = (start + n - 1) as u32;
        lemma_copies(w, s, start, k, huge);
        let mid = w.all_performed(copies(s, start, k, huge));
        lemma_swept(s, start, k);
        lemma_lookup_map(swept(s, start, k), pn);
        let after = w.all_performed(copies(s, start, n, huge));
        match lookup(swept(s, start, k), pn) {
            Some(page) => {
                let dst = huge + k * PAGE_SIZE_4K;
                let e = Effect::Copy { src: page.paddr, dst: dst as usize, len: PAGE_SIZE_4K };
                lemma_performed_concat(w, copies(s, start, k, huge), seq![e]);
                lemma_performed_one(mid, e);
                assert(m.dom().contains(pn) && m[pn] == page);
                let bytes = loaded(mid.mem, page.paddr as int, PAGE_SIZE_4K as nat);
                assert(after.mem == stored(mid.mem, dst, bytes));
                assert forall|a: int| !(huge <= a < huge + PAGE_SIZE_2M) implies #[trigger] after.mem[a]
                    == w.mem[a] by {
                    assert(mid.mem[a] == w.mem[a]);
                }
                assert forall|p: u32, x: int|
                    #![trigger m.dom().contains(p), after.mem[huge + x]]
                    m.dom().contains(p) && start <= p < start + n && (p - start) * PAGE_SIZE_4K <= x
                        < (p - start) * PAGE_SIZE_4K + PAGE_SIZE_4K implies after.mem[huge + x]
                    == w.mem[m[p].paddr + (x - (p - start) * PAGE_SIZE_4K)] by {
                    if p == pn {
                        let i = x - k * PAGE_SIZE_4K;
                        assert(after.mem[huge + x] == bytes[i]);
                        assert(bytes[i] == mid.mem[page.paddr + i]);
                        assert(mid.mem[page.paddr + i] == w.mem[page.paddr + i]);
                    } else {
                        assert(after.mem[huge + x] == mid.mem[huge + x]);
                    }
                }
            },
            None => {
                assert(copies(s, start, n, huge) =~= copies(s, start, k, huge));
            },
        }
    } else {
        assert(w.all_performed(Seq::empty()) == w);
    }
}

/// Giving the memory of pages of the window back keeps the pages that lie beside
/// them.
proof fn lemma_vacates(
    w: World,
    s: Seq<(u32, PageCache)>,
    start: u32,
    n: nat,
    in_memory: bool,
    m: Map<u32, PageCache>,
)
    requires
        distinct(s),
        n <= THP_NR_4K_PAGES,
        start + THP_NR_4K_PAGES <= u32::MAX,
        forall|p: u32| #[trigger] m.dom().contains(p) ==> owned(w, m[p]),
        forall|p: u32, q: u32|
            #![trigger m.dom().contains(p), page_map(s).dom().contains(q)]
            m.dom().contains(p) && page_map(s).dom().contains(q) && start <= q < start + n
                ==> disjoint(m[p], page_map(s)[q]),
    ensures
        ({
            let after = w.all_performed(vacates(s, start, n, in_memory));
            &&& forall|p: u32| #[trigger] m.dom().contains(p) ==> owned(after, m[p])
            &&& after.file == w.file
            &&& after.mem == w.mem
            &&& after.input == w.input
            &&& after.output == w.output
        }),
    decreases n,
{
    if n > 0 {
        let k = (n - 1) as nat;
        let pn = (start + n - 1) as u32;
        lemma_vacates(w, s, start, k, in_memory, m);
        let mid = w.all_performed(vacates(s, start, k, in_memory));
        lemma_vacated(s, start, k);
        lemma_lookup_map(vacated(s, start, k), pn);
        match lookup(vacated(s, start, k), pn) {
            Some(page) => {
                let gone = if in_memory {
                    page
                } else {
                    cleaned(page)
                };
                let e = Effect::FreePage(gone);
                lemma_performed_concat(w, vacates(s, start, k, in_memory), seq![e]);
                lemma_performed_one(mid, e);
                let after = mid.performed(e);
                assert(page_map(s).dom().contains(pn) && page_map(s)[pn] == page);
                assert forall|p: u32| #[trigger] m.dom().contains(p) implies owned(after, m[p]) by {
                    assert(disjoint(m[p], page));
                    assert(owned(mid, m[p]));
                    assert forall|a: int| m[p].paddr <= a < m[p].paddr + m[p].size implies !#[trigger] after.free.contains(
                        a,
                    ) by {
                        assert(!mid.free.contains(a));
                    }
                }
            },
            None => {
                assert(vacates(s, start, n, in_memory) =~= vacates(s, start, k, in_memory));
            },
        }
    } else {
        assert(w.all_performed(Seq::empty()) == w);
    }
}

/// A merge copies the small pages of the window into the huge page, and changes no
/// other memory.
pub proof fn lemma_merge_copies(
    t: Merge,
    cache: CacheView,
    w: World,
    paddr: usize,
    answered: World,
)
    requires
        t.state is AwaitPage,
        t.start_pn + THP_NR_4K_PAGES <= u32::MAX,
        cache.wf(),
        forall|p: u32| #[trigger]
            page_map(cache.pages).dom().contains(p) ==> owned(w, page_map(cache.pages)[p]),
        forall|p: u32| #[trigger]
            page_map(cache.pages).dom().contains(p) && in_window(t.start_pn, p) ==> page_map(
                cache.pages,
            )[p].size == PAGE_SIZE_4K,
        w.answers(Request::AllocPage { bytes: PAGE_SIZE_2M }, Reply::Addr(paddr), answered),
    ensures
        ({
            let s = t.after(cache, Reply::Addr(paddr));
            let after = answered.all_performed(s.effects);
            &&& s.turn == Turn::Finished(Ok::<usize, crate::error::AxError>(paddr))
            &&& copied(
                after.mem,
                w.mem,
                page_map(cache.pages),
                t.start_pn,
                paddr as int,
                THP_NR_4K_PAGES as int,
            )
        }),
{
    let n = THP_NR_4K_PAGES as nat;
    let start = t.start_pn;
    let s = t.after(cache, Reply::Addr(paddr));
    let m = page_map(cache.pages);
    let huge = PageCache { paddr, dirty: false, size: PAGE_SIZE_2M };
    let order = swept(cache.pages, start, n);
    lemma_swept(cache.pages, start, n);
    assert forall|p: u32| #[trigger] m.dom().contains(p) implies disjoint(m[p], huge) by {
        assert(m[p].wf());
        lemma_allocated_beside(w, answered, huge, m[p]);
    }
    let c = copies(cache.pages, start, n, paddr);
    let v = vacates(order, start, n, t.in_memory);
    let out = crate::fs::recency::displaced(vacated(order, start, n), cache.cap, start);
    lemma_copies(answered, cache.pages, start, n, paddr);
    let one = answered.all_performed(c);
    lemma_vacates(one, order, start, n, t.in_memory, Map::empty());
    let two = one.all_performed(v);
    lemma_performed_concat(answered, c, v);
    lemma_performed_concat(answered, c + v, freed(out));
    match out {
        Some(entry) => {
            lemma_performed_one(two, Effect::FreePage(entry.1));
        },
        None => {
            assert(two.all_performed(Seq::empty()) == two);
        },
    }
}

/// Whether a window can be merged without loss: its cached pages are small, no
/// page before it reaches into it, the wanted bytes in it are cached, and those
/// of a file with a device are in the file.
pub open spec fn mergeable(m: Map<u32, PageCache>, start: u32, in_memory: bool, want: Map<int, u8>) -> bool {
    &&& start + THP_NR_4K_PAGES <= u32::MAX
    &&& on_boundary(m, start)
    &&& forall|p: u32| #[trigger]
        m.dom().contains(p) && in_window(start, p) ==> m[p].size == PAGE_SIZE_4K && (in_memory
            || !m[p].dirty)
    &&& forall|b: int| #[trigger]
        want.dom().contains(b) && start * PAGE_SIZE_4K <= b < start * PAGE_SIZE_4K + PAGE_SIZE_2M
            ==> !uncached(m, b)
}

/// Merging a window whose wanted bytes are all cached keeps the contents of the
/// file. The huge page stands for the whole window then.
pub proof fn law_merge_keeps_the_bytes(
    t: Merge,
    cache: CacheView,
    w: World,
    want: Map<int, u8>,
    paddr: usize,
    answered: World,
)
    requires
        t.state is AwaitPage,
        cache.wf(),
        coherent(w, t.in_memory, page_map(cache.pages), want),
        mergeable(page_map(cache.pages), t.start_pn, t.in_memory, want),
        w.answers(Request::AllocPage { bytes: PAGE_SIZE_2M }, Reply::Addr(paddr), answered),
        !cache.full() || exists|p: u32| #[trigger]
            page_map(cache.pages).dom().contains(p) && in_window(t.start_pn, p),
    ensures
        ({
            let s = t.after(cache, Reply::Addr(paddr));
            let after = answered.all_performed(s.effects);
            let huge = PageCache { paddr, dirty: false, size: PAGE_SIZE_2M };
            let m = page_map(s.cache.pages);
            &&& s.turn == Turn::Finished(Ok::<usize, crate::error::AxError>(paddr))
            &&& s.cache.wf()
            &&& m == page_map(cache.pages).remove_keys(
                Set::new(|p: u32| in_window(t.start_pn, p)),
            ).insert(t.start_pn, huge)
            &&& coherent(after, t.in_memory, m, want)
            &&& after.file == w.file
        }),
{
    let n = THP_NR_4K_PAGES as nat;
    let start = t.start_pn;
    let s = t.after(cache, Reply::Addr(paddr));
    let m = page_map(cache.pages);
    let huge = PageCache { paddr, dirty: false, size: PAGE_SIZE_2M };
    let order = swept(cache.pages, start, n);
    let rest = vacated(order, start, n);
    let r = page_map(rest);
    lemma_swept(cache.pages, start, n);
    lemma_vacated(order, start, n);
    assert(r =~= m.remove_keys(Set::new(|p: u32| in_window(start, p))));
    assert forall|p: u32| #[trigger] m.dom().contains(p) implies disjoint(m[p], huge) && owned(
        answered,
        m[p],
    ) by {
        assert(m[p].wf());
        assert(owned(w, m[p]));
        lemma_allocated_beside(w, answered, huge, m[p]);
    }
    assert(owned(answered, huge)) by {
        assert forall|x: int| huge.paddr <= x < huge.paddr + huge.size implies !#[trigger] answered.free.contains(
            x,
        ) by {
            assert(area(huge.paddr as int, huge.size as int).contains(x));
        }
    }
    let c = copies(cache.pages, start, n, paddr);
    let v = vacates(order, start, n, t.in_memory);
    lemma_copies(answered, cache.pages, start, n, paddr);
    let one = answered.all_performed(c);
    let all = r.insert(start, huge);
    assert forall|p: u32| #[trigger] all.dom().contains(p) implies owned(one, all[p]) by {
        if p != start {
            assert(m.dom().contains(p));
            assert(owned(answered, m[p]));
        } else {
            assert(owned(answered, huge));
        }
    }
    assert forall|p: u32, q: u32|
        #![trigger all.dom().contains(p), page_map(order).dom().contains(q)]
        all.dom().contains(p) && page_map(order).dom().contains(q) && start <= q < start + n implies disjoint(
        all[p],
        page_map(order)[q],
    ) by {
        assert(m.dom().contains(q));
        if p == start {
            assert(disjoint(m[q], huge));
        } else {
            assert(m.dom().contains(p));
            assert(!in_window(start, p));
            assert(p != q);
        }
    }
    lemma_vacates(one, order, start, n, t.in_memory, all);
    let two = one.all_performed(v);
    // The cache has room for the huge page.
    assert(!has_key(rest, start)) by {
        assert(!r.dom().contains(start));
    }
    assert(rest.len() < cache.cap) by {
        if cache.full() {
            let p = choose|p: u32| #[trigger] m.dom().contains(p) && in_window(start, p);
            lemma_vacated_shorter(order, start, n, p);
        }
    }
    let out = crate::fs::recency::displaced(rest, cache.cap, start);
    assert(out is None);
    assert(freed(out) =~= Seq::empty());
    assert(s.effects =~= c + v);
    lemma_performed_concat(answered, c, v);
    let after = answered.all_performed(s.effects);
    assert(after == two);
    lemma_pushed(rest, cache.cap, start, huge);
    assert(page_map(s.cache.pages) == all);
    assert(pages_ok(r)) by {
        assert forall|p: u32| #[trigger] r.dom().contains(p) implies r[p].wf() by {
            assert(m.dom().contains(p));
        }
    }
    lemma_pages_ok_insert(r, start, huge);
    assert(s.cache.wf());
    assert(laid_out(after, all)) by {
        assert forall|p: u32, q: u32|
            #![trigger all.dom().contains(p), all.dom().contains(q)]
            all.dom().contains(p) && all.dom().contains(q) implies (p < q ==> p + step(all, p as int)
            <= q) && (p != q ==> disjoint(all[p], all[q])) by {
            if p != start {
                assert(m.dom().contains(p));
                assert(step(all, p as int) == step(m, p as int));
            } else {
                assert(step(all, p as int) == THP_NR_4K_PAGES);
            }
            if q != start {
                assert(m.dom().contains(q));
            }
        }
    }
    assert forall|b: int, p: u32|
        #![trigger want.dom().contains(b), holds(all, p, b)]
        want.dom().contains(b) && holds(all, p, b) implies held(after, all, p, b) == want[b] && (
    t.in_memory || all[p].dirty || after.file[b] == want[b]) by {
        if p == start {
            assert(!uncached(m, b));
            let q = choose|q: u32| #[trigger] holds(m, q, b);
            assert(m.dom().contains(q));
            assert(m[q].wf());
            if q < start {
                assert(q + step(m, q as int) <= start);
                assert(false);
            }
            assert(in_window(start, q));
            assert(held(w, m, q, b) == want[b]);
            let x = b - start * PAGE_SIZE_4K;
            assert((q - start) * PAGE_SIZE_4K <= x < (q - start) * PAGE_SIZE_4K + PAGE_SIZE_4K);
            assert(one.mem[paddr + x] == answered.mem[m[q].paddr + (x - (q - start) * PAGE_SIZE_4K)]);
        } else {
            assert(holds(m, p, b));
            assert(held(w, m, p, b) == want[b]);
            let a = m[p].paddr + (b - p * PAGE_SIZE_4K);
            assert(disjoint(m[p], huge));
            assert(one.mem[a] == answered.mem[a]);
        }
    }
    assert forall|b: int| #[trigger] want.dom().contains(b) && uncached(all, b) implies backing(
        after,
        t.in_memory,
        b,
    ) == want[b] by {
        assert(!holds(all, start, b));
        assert forall|p: u32| !#[trigger] holds(m, p, b) by {
            if holds(m, p, b) {
                if in_window(start, p) {
                    assert(m.dom().contains(p));
                } else {
                    assert(holds(all, p, b));
                }
            }
        }
        assert(uncached(m, b));
        assert(backing(w, t.in_memory, b) == want[b]);
    }
}

/// Memory that is taken from what is free lies beside every page that is not.
proof fn lemma_allocated_beside(w: World, after: World, page: PageCache, other: PageCache)
    requires
        page.wf(),
        other.wf(),
        area(page.paddr as int, page.size as int).subset_of(w.free),
        after.free == w.free.difference(area(page.paddr as int, page.size as int)),
        owned(w, other),
    ensures
        disjoint(other, page),
        owned(after, other),
{
    let common = if other.paddr < page.paddr {
        page.paddr as int
    } else {
        other.paddr as int
    };
    if !disjoint(other, page) {
        assert(area(page.paddr as int, page.size as int).contains(common));
        assert(w.free.contains(common));
    }
    assert forall|x: int| other.paddr <= x < other.paddr + other.size implies !#[trigger] after.free.contains(
        x,
    ) by {
        assert(!w.free.contains(x));
    }
}

/// Where a page of the window is cached, taking the window out makes room.
proof fn lemma_vacated_shorter(s: Seq<(u32, PageCache)>, start: u32, n: nat, p: u32)
    requires
        distinct(s),
        start + n <= u32::MAX,
        start <= p < start + n,
        page_map(s).dom().contains(p),
    ensures
        vacated(s, start, n).len() < s.len(),
    decreases n,
{
    let k = (n - 1) as nat;
    lemma_vacated(s, start, k);
    lemma_without(vacated(s, start, k), (start + n - 1) as u32);
    if p < start + k {
        lemma_vacated_shorter(s, start, k, p);
    } else {
        assert(page_map(vacated(s, start, k)).dom().contains(p));
    }
}

/// A merge that ends gives the address of the huge page that is cached for the
/// window then.
pub proof fn law_merged_page_is_cached(t: Merge, cache: CacheView, reply: Reply)
    requires
        t.wf(),
        t.awaits(reply),
        cache.wf(),
    ensures
        ({
            let s = t.after(cache, reply);
            let m = page_map(s.cache.pages);
            s.turn matches Turn::Finished(Ok(paddr)) ==> m.dom().contains(t.start_pn) && m[t.start_pn]
                == (PageCache { paddr, dirty: false, size: PAGE_SIZE_2M })
        }),
{
    let n = THP_NR_4K_PAGES as nat;
    let s = swept(cache.pages, t.start_pn, n);
    lemma_swept(cache.pages, t.start_pn, n);
    lemma_vacated(s, t.start_pn, n);
    if let Reply::Addr(paddr) = reply {
        lemma_pushed(
            vacated(s, t.start_pn, n),
            cache.cap,
            t.start_pn,
            PageCache { paddr, dirty: false, size: PAGE_SIZE_2M },
        );
    }
}

/// A merge asks for a huge page, and with it takes the place of the small pages from
/// a page number on: a huge page is cached for that number, none of the small pages
/// is cached any more, all other pages are as they were, and the file has the bytes
/// that it had.
pub proof fn law_replacement_keeps_the_bytes(
    file: CachedFile,
    start_pn: u32,
    t: Merge,
    cache: CacheView,
    w: World,
    want: Map<int, u8>,
    paddr: usize,
    answered: World,
)
    requires
        call_ensures(CachedFile::replace_with_huge_page, (&file, start_pn), t),
        cache.wf(),
        coherent(w, file.in_memory, page_map(cache.pages), want),
        mergeable(page_map(cache.pages), start_pn, file.in_memory, want),
        w.answers(Request::AllocPage { bytes: 2_097_152 }, Reply::Addr(paddr), answered),
        !cache.full() || exists|p: u32| #[trigger]
            page_map(cache.pages).dom().contains(p) && in_window(start_pn, p),
    ensures
        ({
            let a = t.after(cache, Reply::Start);
            let b = a.next.after(a.cache, Reply::Addr(paddr));
            let end = answered.all_performed(a.effects).all_performed(b.effects);
            let m = page_map(cache.pages);
            let n = page_map(b.cache.pages);
            &&& a.turn == Turn::<usize>::Ask(Request::AllocPage { bytes: 2_097_152 })
            &&& b.turn == Turn::Finished(Ok::<usize, crate::error::AxError>(paddr))
            &&& coherent(end, file.in_memory, n, want)
            &&& end.file == w.file
            &&& n.dom().contains(start_pn)
            &&& n[start_pn] == (PageCache { paddr, dirty: false, size: 2_097_152 })
            &&& forall|p: u32| #[trigger]
                n.dom().contains(p) <==> p == start_pn || (m.dom().contains(p) && !(start_pn <= p
                    < start_pn + 512))
            &&& forall|p: u32| #[trigger] n.dom().contains(p) && p != start_pn ==> n[p] == m[p]
        }),
{
    let a = t.after(cache, Reply::Start);
    law_merge_begins_with_notices(t, cache, w);
    law_merge_begins_with_notices(t, cache, answered);
    assert(!a.cache.full() || exists|p: u32| #[trigger]
        page_map(a.cache.pages).dom().contains(p) && in_window(start_pn, p)) by {
        lemma_swept_over(cache.pages, start_pn, cache.listeners.len());
    }
    law_merge_keeps_the_bytes(a.next, a.cache, w, want, paddr, answered);
}

} // verus!
