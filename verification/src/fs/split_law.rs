//! Splitting a huge page keeps the contents of the file.

use vstd::prelude::*;
use crate::addr::{PAGE_SIZE_2M, PAGE_SIZE_4K, THP_NR_4K_PAGES};
use crate::effect::{Effect, Reply, Request, Turn};
use crate::fs::cache::CacheView;
use crate::fs::cached_file::CachedFile;
use crate::fs::chunks::{chunk_from, chunk_order, lemma_chunk_order, step};
use crate::fs::evict::{cleaned, writeback, EvictState};
use crate::fs::fetch::freed;
use crate::fs::fetch_law::{
    beside, lemma_behind_leaves, lemma_clean_leaves, lemma_pages_ok_insert, lemma_written_leaves,
};
use crate::fs::page::{PageCache, PageOperation};
use crate::fs::recency::{
    lemma_drop_last, lemma_lookup_map, lemma_pushed, lemma_touched, lemma_without, lookup,
    page_map, touched, without,
};
use crate::fs::split::{lemma_chunk_found, Split, SplitStep};
use crate::fs::transfer_law::{lemma_freed, lemma_not_full, roomy};
use crate::fs::world::{
    backing, coherent, disjoint, held, holds, laid_out, lemma_notices, lemma_performed_concat,
    owned, uncached, World,
};

verus! {

/// A split in the world: where it stands, and what it waits for or ended with.
pub struct SplitRun {
    pub machine: Split,
    pub cache: CacheView,
    pub world: World,
    pub turn: Option<Turn<usize>>,
}

/// The split after a reply from the world `world`.
pub open spec fn split_resumed(a: SplitRun, reply: Reply, world: World) -> SplitRun {
    let s = a.machine.after(a.cache, reply);
    SplitRun {
        machine: s.next,
        cache: s.cache,
        world: world.all_performed(s.effects),
        turn: Some(s.turn),
    }
}

/// Whether a split can go from `a` to `b`: it starts, or its request is
/// answered.
pub open spec fn split_moves(a: SplitRun, b: SplitRun) -> bool {
    match a.turn {
        None => b == split_resumed(a, Reply::Start, a.world),
        Some(Turn::Ask(request)) => exists|reply: Reply, world: World| #[trigger]
            a.world.answers(request, reply, world) && b == split_resumed(a, reply, world),
        Some(Turn::Finished(_)) => false,
    }
}

/// Whether a split goes through the given stages.
pub open spec fn split_runs(stages: Seq<SplitRun>) -> bool {
    &&& stages.len() > 0
    &&& forall|i: int| 0 <= i < stages.len() - 1 ==> split_moves(#[trigger] stages[i], stages[i + 1])
}

/// The cached pages and the small pages that are still to come.
pub open spec fn spread(t: Split, m: Map<u32, PageCache>) -> Map<u32, PageCache> {
    Map::new(
        |p: u32| m.dom().contains(p) || t.base_pn + t.done <= p < t.base_pn + THP_NR_4K_PAGES,
        |p: u32|
            if t.base_pn + t.done <= p < t.base_pn + THP_NR_4K_PAGES {
                t.small(p - t.base_pn)
            } else {
                m[p]
            },
    )
}

/// Whether none of the small pages that are still to come is cached.
pub open spec fn to_come(t: Split, m: Map<u32, PageCache>) -> bool {
    forall|p: u32| #[trigger]
        m.dom().contains(p) ==> !(t.base_pn + t.done <= p < t.base_pn + THP_NR_4K_PAGES)
}

/// What holds of a split that waits for the answer to `request`, with the bytes
/// that `want` gives.
pub open spec fn split_waits(t: Split, cache: CacheView, w: World, want: Map<int, u8>, request: Request) -> bool {
    let m = page_map(cache.pages);
    let (pn, page) = (t.eviction.pn, t.eviction.page);
    &&& t.ready()
    &&& t.done < THP_NR_4K_PAGES
    &&& cache.wf()
    &&& !cache.full()
    &&& t.state is Evicting
    &&& !t.file.in_memory
    &&& page.dirty
    &&& !m.dom().contains(pn)
    &&& to_come(t, m.insert(pn, page))
    &&& coherent(w, false, spread(t, m.insert(pn, page)), want)
    &&& match t.eviction.state {
        EvictState::Begin => false,
        EvictState::AwaitLen => request is FileLen,
        EvictState::AwaitWrite => w.file.len() <= u64::MAX && Some(request) == writeback(
            pn,
            page,
            w.file.len() as u64,
        ),
    }
}

/// What holds after a step of a split.
pub open spec fn split_steps(t: Split, s: SplitStep, w: World, want: Map<int, u8>) -> bool {
    &&& s.next.file == t.file
    &&& match s.turn {
        Turn::Ask(request) => split_waits(s.next, s.cache, w, want, request),
        Turn::Finished(Ok(_)) => {
            &&& s.cache.wf()
            &&& coherent(w, t.file.in_memory, page_map(s.cache.pages), want)
        },
        Turn::Finished(Err(_)) => false,
    }
}

/// Whether every huge page of a cache is clean.
pub open spec fn huge_clean(m: Map<u32, PageCache>) -> bool {
    forall|p: u32| #[trigger] m.dom().contains(p) && m[p].size == PAGE_SIZE_2M ==> !m[p].dirty
}

/// A small page that comes into the cache was counted in already.
proof fn lemma_one_in(t: Split, cache: CacheView)
    requires
        t.ready(),
        t.done < THP_NR_4K_PAGES,
        cache.wf(),
        !cache.full(),
        to_come(t, page_map(cache.pages)),
    ensures
        t.one_in(cache).wf(),
        t.one_in(cache).cap == cache.cap,
        t.one_in(cache).listeners == cache.listeners,
        t.one_out(cache).len() == 0,
        to_come(t.one_more(), page_map(t.one_in(cache).pages)),
        spread(t.one_more(), page_map(t.one_in(cache).pages)) == spread(t, page_map(cache.pages)),
        t.one_more().ready(),
        huge_clean(page_map(cache.pages)) ==> huge_clean(page_map(t.one_in(cache).pages)),
{
    let m = page_map(cache.pages);
    let pn = (t.base_pn + t.done) as u32;
    let small = t.small(t.done as int);
    assert(!m.dom().contains(pn));
    lemma_pushed(cache.pages, cache.cap, pn, small);
    lemma_pages_ok_insert(m, pn, small);
    let c = t.one_in(cache);
    assert(page_map(c.pages) == m.insert(pn, small));
    assert(spread(t.one_more(), page_map(c.pages)) =~= spread(t, m));
    assert(freed(crate::fs::recency::displaced(cache.pages, cache.cap, pn)) =~= Seq::empty());
    assert forall|p: u32| #[trigger] page_map(c.pages).dom().contains(p) implies !(t.base_pn + t.done
        + 1 <= p < t.base_pn + THP_NR_4K_PAGES) by {
        if p != pn {
            assert(m.dom().contains(p));
        }
    }
}

/// A page that leaves the cache leaves the whole.
proof fn lemma_spread_remove(t: Split, m: Map<u32, PageCache>, pn: u32)
    requires
        to_come(t, m),
        m.dom().contains(pn),
    ensures
        spread(t, m.remove(pn)) == spread(t, m).remove(pn),
        spread(t, m).dom().contains(pn),
        spread(t, m)[pn] == m[pn],
        to_come(t, m.remove(pn)),
{
    assert(spread(t, m.remove(pn)) =~= spread(t, m).remove(pn));
}

/// The small pages that come into the cache keep the contents of the file.
proof fn lemma_going(t: Split, cache: CacheView, w: World, want: Map<int, u8>)
    requires
        t.ready(),
        t.done <= THP_NR_4K_PAGES,
        cache.wf(),
        roomy(t.file.in_memory, cache),
        to_come(t, page_map(cache.pages)),
        coherent(w, t.file.in_memory, spread(t, page_map(cache.pages)), want),
    ensures
        ({
            let s = t.going(cache);
            let after = w.all_performed(s.effects);
            split_steps(t, s, after, want) && after.file.len() == w.file.len() && s.cache.cap
                == cache.cap && (huge_clean(page_map(cache.pages)) ==> huge_clean(
                page_map(s.cache.pages),
            ))
        }),
    decreases THP_NR_4K_PAGES - t.done,
{
    let m = page_map(cache.pages);
    let s = t.going(cache);
    if t.file.in_memory {
        lemma_not_full(cache);
    }
    if t.done >= THP_NR_4K_PAGES {
        assert(w.all_performed(Seq::empty()) == w);
        assert(spread(t, m) =~= m);
    } else if cache.full() {
        let (pn, page) = cache.pages.last();
        let rest = cache.with_pages(cache.pages.drop_last());
        let notices = cache.notices(pn, page, PageOperation::Unmap);
        let n = page_map(rest.pages);
        lemma_drop_last(cache.pages);
        lemma_notices(w, cache, pn, page, PageOperation::Unmap);
        assert(rest.wf()) by {
            assert forall|p: u32| #[trigger] n.dom().contains(p) implies n[p].wf() by {
                assert(m.dom().contains(p));
            }
        }
        if huge_clean(m) {
            assert forall|p: u32| #[trigger] n.dom().contains(p) && n[p].size == PAGE_SIZE_2M implies !n[p].dirty by {
                assert(m.dom().contains(p));
            }
        }
        if page.dirty {
            assert(n.insert(pn, page) =~= m);
            assert(spread(s.next, m) =~= spread(t, m));
        } else {
            lemma_spread_remove(t, m, pn);
            lemma_clean_leaves(w, spread(t, m), want, pn);
            let out = Some((pn, page));
            let free = seq![Effect::FreePage(page)];
            assert(freed(out) =~= free);
            assert(beside(w, spread(t, n), page));
            lemma_freed(w, false, spread(t, n), want, out);
            let mid = w.all_performed(free);
            lemma_one_in(t, rest);
            lemma_going(t.one_more(), t.one_in(rest), mid, want);
            assert(t.one_out(rest) =~= Seq::empty());
            let before = notices + free + t.one_out(rest);
            assert(before =~= notices + free);
            lemma_performed_concat(w, notices, free);
            lemma_performed_concat(w, before, t.one_more().going(t.one_in(rest)).effects);
        }
    } else {
        lemma_one_in(t, cache);
        lemma_going(t.one_more(), t.one_in(cache), w, want);
        let more = t.one_more().going(t.one_in(cache)).effects;
        assert(t.one_out(cache) + more =~= more);
    }
}

/// The small pages of a huge page hold the bytes that it held.
proof fn lemma_spread(t: Split, m: Map<u32, PageCache>, w: World, in_memory: bool, want: Map<int, u8>)
    requires
        t.ready(),
        t.done == 0,
        m.dom().contains(t.base_pn),
        m[t.base_pn] == t.huge,
        in_memory || !t.huge.dirty,
        coherent(w, in_memory, m, want),
    ensures
        to_come(t, m.remove(t.base_pn)),
        coherent(w, in_memory, spread(t, m.remove(t.base_pn)), want),
{
    let base = t.base_pn;
    let huge = t.huge;
    let r = m.remove(base);
    let n = spread(t, r);
    assert(step(m, base as int) == THP_NR_4K_PAGES);
    assert forall|p: u32| #[trigger] r.dom().contains(p) implies !(base <= p < base + THP_NR_4K_PAGES) by {
        assert(m.dom().contains(p) && m.dom().contains(base));
        if base < p {
            assert(base + step(m, base as int) <= p);
        }
    }
    assert forall|p: u32| #[trigger] n.dom().contains(p) && base <= p < base + THP_NR_4K_PAGES implies n[p]
        == t.small(p - base) && n[p].wf() && n[p].size == PAGE_SIZE_4K && n[p].paddr == huge.paddr + (p
        - base) * PAGE_SIZE_4K by {}
    assert forall|p: u32| #[trigger] n.dom().contains(p) && !(base <= p < base + THP_NR_4K_PAGES) implies n[p]
        == m[p] && m.dom().contains(p) && p != base by {}
    assert forall|p: u32, q: u32|
        #![trigger n.dom().contains(p), n.dom().contains(q)]
        n.dom().contains(p) && n.dom().contains(q) implies (p < q ==> p + step(n, p as int) <= q) && (p
        != q ==> disjoint(n[p], n[q])) by {
        let pi = base <= p < base + THP_NR_4K_PAGES;
        let qi = base <= q < base + THP_NR_4K_PAGES;
        if !pi {
            assert(step(n, p as int) == step(m, p as int));
            assert(m.dom().contains(p) && m.dom().contains(base));
            assert(disjoint(m[p], huge));
            if p < base {
                assert(p + step(m, p as int) <= base);
            }
        } else {
            assert(step(n, p as int) == 1);
        }
        if !qi {
            assert(m.dom().contains(q) && m.dom().contains(base));
            assert(disjoint(m[q], huge));
        }
        if !pi && !qi {
            assert(m.dom().contains(p) && m.dom().contains(q));
        }
    }
    assert forall|p: u32| #[trigger] n.dom().contains(p) implies owned(w, n[p]) && n[p].wf() by {
        if base <= p < base + THP_NR_4K_PAGES {
            assert(owned(w, huge));
        } else {
            assert(m.dom().contains(p));
        }
    }
    assert(laid_out(w, n));
    assert forall|b: int, p: u32|
        #![trigger want.dom().contains(b), holds(n, p, b)]
        want.dom().contains(b) && holds(n, p, b) implies held(w, n, p, b) == want[b] && (in_memory
        || n[p].dirty || w.file[b] == want[b]) by {
        assert(n.dom().contains(p));
        if base <= p < base + THP_NR_4K_PAGES {
            assert(holds(m, base, b));
            assert(held(w, m, base, b) == want[b]);
        } else {
            assert(holds(m, p, b));
        }
    }
    assert forall|b: int| #[trigger] want.dom().contains(b) && uncached(n, b) implies backing(
        w,
        in_memory,
        b,
    ) == want[b] by {
        assert forall|p: u32| !#[trigger] holds(m, p, b) by {
            if holds(m, p, b) {
                if p == base {
                    let q = (b / PAGE_SIZE_4K as int) as u32;
                    assert(n.dom().contains(q));
                    assert(holds(n, q, b));
                } else {
                    assert(m.dom().contains(p));
                    assert(r.dom().contains(p));
                    assert(holds(n, p, b));
                }
            }
        }
        assert(uncached(m, b));
    }
}

/// What holds at every stage of a split that started in the world `w`, with the
/// bytes that `want` gives.
pub open spec fn split_invariant(
    r: SplitRun,
    file: CachedFile,
    pn: u32,
    cache: CacheView,
    w: World,
    want: Map<int, u8>,
) -> bool {
    &&& r.machine.file == file
    &&& r.world.file.len() == w.file.len()
    &&& r.cache.cap == cache.cap
    &&& match r.turn {
        None => r.machine == file.split_of(pn) && r.cache == cache && r.world == w,
        Some(Turn::Ask(request)) => split_waits(r.machine, r.cache, r.world, want, request),
        Some(Turn::Finished(Ok(_))) => {
            &&& r.cache.wf()
            &&& coherent(r.world, file.in_memory, page_map(r.cache.pages), want)
        },
        Some(Turn::Finished(Err(_))) => false,
    }
}

/// Whether there is a huge page to split that has the wanted bytes in it, and
/// its bytes are in the file if it has a device.
pub open spec fn splittable(file: CachedFile, pn: u32, cache: CacheView) -> bool {
    let m = page_map(cache.pages);
    let (base, size) = chunk_from(m, 0, pn as int);
    &&& pn + THP_NR_4K_PAGES <= u32::MAX
    &&& base is Some
    &&& size == PAGE_SIZE_2M
    &&& file.in_memory || !m[base.unwrap()].dirty
}

/// A split begins.
pub proof fn lemma_split_begins(file: CachedFile, pn: u32, cache: CacheView, w: World, want: Map<int, u8>)
    requires
        cache.wf(),
        roomy(file.in_memory, cache),
        splittable(file, pn, cache),
        coherent(w, file.in_memory, page_map(cache.pages), want),
    ensures
        ({
            let t = file.split_of(pn);
            let s = t.after(cache, Reply::Start);
            let after = w.all_performed(s.effects);
            split_steps(t, s, after, want) && after.file.len() == w.file.len() && s.cache.cap
                == cache.cap && (huge_clean(page_map(cache.pages)) ==> huge_clean(
                page_map(s.cache.pages),
            ))
        }),
{
    reveal(Split::after);
    let m = page_map(cache.pages);
    let t = file.split_of(pn);
    let base = chunk_from(m, 0, pn as int).0.unwrap();
    let order = chunk_order(cache.pages, m, 0, pn as int);
    lemma_chunk_found(m, 0, pn as int);
    lemma_chunk_order(cache.pages, m, 0, pn as int);
    lemma_lookup_map(order, base);
    let huge = m[base];
    assert(huge.wf());
    assert(lookup(order, base) == Some(huge));
    lemma_touched(order, base);
    lemma_without(touched(order, base), base);
    let u = Split { base_pn: base, huge, done: 0, ..t };
    let c = cache.with_pages(without(touched(order, base), base));
    assert(page_map(c.pages) == m.remove(base));
    assert(c.wf()) by {
        assert forall|p: u32| #[trigger] page_map(c.pages).dom().contains(p) implies page_map(
            c.pages,
        )[p].wf() by {
            assert(m.dom().contains(p));
        }
    }
    if huge_clean(m) {
        assert forall|p: u32| #[trigger]
            page_map(c.pages).dom().contains(p) && page_map(c.pages)[p].size == PAGE_SIZE_2M implies !page_map(
            c.pages,
        )[p].dirty by {
            assert(m.dom().contains(p));
        }
    }
    lemma_spread(u, m, w, file.in_memory, want);
    lemma_going(u, c, w, want);
    let notices = cache.notices(base, huge, PageOperation::Demote);
    lemma_notices(w, cache, base, huge, PageOperation::Demote);
    lemma_performed_concat(w, notices, u.going(c).effects);
}

/// A split goes on after the answer to its request.
pub proof fn lemma_split_goes_on(
    t: Split,
    cache: CacheView,
    w: World,
    want: Map<int, u8>,
    request: Request,
    reply: Reply,
    answered: World,
)
    requires
        split_waits(t, cache, w, want, request),
        w.answers(request, reply, answered),
    ensures
        ({
            let s = t.after(cache, reply);
            let after = answered.all_performed(s.effects);
            split_steps(t, s, after, want) && after.file.len() == w.file.len() && s.cache.cap
                == cache.cap && (huge_clean(page_map(cache.pages)) ==> huge_clean(
                page_map(s.cache.pages),
            ))
        }),
{
    reveal(Split::after);
    assert(answered.all_performed(Seq::empty()) == answered);
    let (vpn, page) = (t.eviction.pn, t.eviction.page);
    let n = page_map(cache.pages);
    let m = n.insert(vpn, page);
    let es = t.eviction.after(cache, reply);
    lemma_spread_remove(t, m, vpn);
    assert(m.remove(vpn) =~= n);
    if es.turn is Finished {
        if t.eviction.state is AwaitLen {
            lemma_behind_leaves(w, spread(t, m), want, vpn);
        } else {
            lemma_written_leaves(w, answered, spread(t, m), want, vpn);
        }
        let u = Split { eviction: es.next, ..t };
        assert(spread(u, n) =~= spread(t, n));
        let out = Some((vpn, cleaned(page)));
        let free = seq![Effect::FreePage(cleaned(page))];
        assert(freed(out) =~= free);
        assert(beside(answered, spread(u, n), cleaned(page))) by {
            assert(beside(answered, spread(t, n), page));
            assert forall|p: u32| #[trigger] spread(u, n).dom().contains(p) implies disjoint(
                spread(u, n)[p],
                cleaned(page),
            ) by {
                assert(disjoint(spread(t, n)[p], page));
            }
            assert(owned(answered, page));
        }
        lemma_freed(answered, false, spread(u, n), want, out);
        let mid = answered.all_performed(free);
        lemma_one_in(u, cache);
        lemma_going(u.one_more(), u.one_in(cache), mid, want);
        let before = es.effects + free + u.one_out(cache);
        assert(before =~= free);
        lemma_performed_concat(answered, before, u.one_more().going(u.one_in(cache)).effects);
    } else {
        assert(spread(t.after(cache, reply).next, m) =~= spread(t, m));
    }
}

/// A stage of a split is followed by a stage of it.
proof fn lemma_split_moves(
    a: SplitRun,
    b: SplitRun,
    file: CachedFile,
    pn: u32,
    cache: CacheView,
    w: World,
    want: Map<int, u8>,
)
    requires
        cache.wf(),
        roomy(file.in_memory, cache),
        splittable(file, pn, cache),
        coherent(w, file.in_memory, page_map(cache.pages), want),
        split_invariant(a, file, pn, cache, w, want),
        split_moves(a, b),
    ensures
        split_invariant(b, file, pn, cache, w, want),
{
    match a.turn {
        None => {
            lemma_split_begins(file, pn, cache, w, want);
        },
        Some(Turn::Ask(request)) => {
            let (reply, answered) = choose|reply: Reply, world: World| #[trigger]
                a.world.answers(request, reply, world) && b == split_resumed(a, reply, world);
            lemma_split_goes_on(a.machine, a.cache, a.world, want, request, reply, answered);
        },
        Some(Turn::Finished(_)) => {},
    }
}

proof fn lemma_split_stages(
    stages: Seq<SplitRun>,
    i: int,
    file: CachedFile,
    pn: u32,
    cache: CacheView,
    w: World,
    want: Map<int, u8>,
)
    requires
        cache.wf(),
        roomy(file.in_memory, cache),
        splittable(file, pn, cache),
        coherent(w, file.in_memory, page_map(cache.pages), want),
        split_runs(stages),
        0 <= i < stages.len(),
        split_invariant(stages[0], file, pn, cache, w, want),
    ensures
        split_invariant(stages[i], file, pn, cache, w, want),
    decreases i,
{
    if i > 0 {
        lemma_split_stages(stages, i - 1, file, pn, cache, w, want);
        assert(split_moves(stages[i - 1], stages[i - 1 + 1]));
        lemma_split_moves(stages[i - 1], stages[i], file, pn, cache, w, want);
    }
}

/// A split keeps the contents of the file, where the huge page of a file with a
/// device was in step with the file.
pub proof fn law_split_keeps_the_bytes(
    m: Split,
    stages: Seq<SplitRun>,
    file: CachedFile,
    pn: u32,
    cache: CacheView,
    w: World,
    want: Map<int, u8>,
)
    requires
        cache.wf(),
        roomy(file.in_memory, cache),
        splittable(file, pn, cache),
        coherent(w, file.in_memory, page_map(cache.pages), want),
        call_ensures(CachedFile::split_huge_page, (&file, pn), m),
        split_runs(stages),
        stages[0] == (SplitRun { machine: m, cache, world: w, turn: None }),
        stages.last().turn matches Some(Turn::Finished(_)),
    ensures
        stages.last().turn matches Some(Turn::Finished(Ok(_))),
        stages.last().cache.wf(),
        coherent(
            stages.last().world,
            file.in_memory,
            page_map(stages.last().cache.pages),
            want,
        ),
        stages.last().world.file.len() == w.file.len(),
{
    lemma_split_stages(stages, stages.len() - 1, file, pn, cache, w, want);
}

} // verus!
