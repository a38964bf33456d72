//! Whoever listens is told of every page that leaves a cache.

use vstd::prelude::*;
use crate::addr::THP_NR_4K_PAGES;
use crate::effect::{Effect, Reply, Turn};
use crate::fs::cache::{CacheView, CachedFileShared};
use crate::fs::chunks::{chunk_from, chunk_order, lemma_chunk_order, offset_from, offset_order};
use crate::fs::evict::{EvictState, Eviction};
use crate::fs::fetch::PageFetch;
use crate::fs::merge::{retracts, swept, swept_over, unmaps, Merge};
use crate::fs::merge_law::{lemma_swept, lemma_swept_over};
use crate::fs::page::{PageCache, PageOperation};
use crate::fs::recency::{
    distinct, has_key, lemma_drop_last, lemma_lookup_map, lemma_pushed, lemma_touched,
    lemma_without, lookup, page_map, touched, without,
};
use crate::fs::resize::{discards, kept, lemma_kept_map, Resize};
use crate::fs::split::{lemma_chunk_found, Split};
use crate::fs::sync::{drained, CacheSync, SyncState};
use crate::fs::transfer_law::lemma_offset_order;

verus! {

/// Whether an effect tells a listener of an operation on a page.
pub open spec fn tells(e: Effect, listener: usize, pn: u32, op: PageOperation) -> bool {
    e matches Effect::Notify { listener: l, pn: p, page: _, op: o } && l == listener && p == pn && o
        == op
}

/// Whether a listener is told of an operation on a page.
pub open spec fn hears(effects: Seq<Effect>, listener: usize, pn: u32, op: PageOperation) -> bool {
    exists|i: int| 0 <= i < effects.len() && #[trigger] tells(effects[i], listener, pn, op)
}

/// Whether all listeners are told of an operation on a page.
pub open spec fn all_hear(effects: Seq<Effect>, listeners: Seq<usize>, pn: u32, op: PageOperation) -> bool {
    forall|k: int| 0 <= k < listeners.len() ==> #[trigger] hears(effects, listeners[k], pn, op)
}

/// What is told is told among other effects too.
proof fn lemma_hear_more(a: Seq<Effect>, b: Seq<Effect>, listeners: Seq<usize>, pn: u32, op: PageOperation)
    ensures
        all_hear(a, listeners, pn, op) ==> all_hear(a + b, listeners, pn, op),
        all_hear(b, listeners, pn, op) ==> all_hear(a + b, listeners, pn, op),
{
    if all_hear(a, listeners, pn, op) {
        assert forall|k: int| 0 <= k < listeners.len() implies #[trigger] hears(
            a + b,
            listeners[k],
            pn,
            op,
        ) by {
            assert(hears(a, listeners[k], pn, op));
            let i = choose|i: int| 0 <= i < a.len() && #[trigger] tells(a[i], listeners[k], pn, op);
            assert(tells((a + b)[i], listeners[k], pn, op));
        }
    }
    if all_hear(b, listeners, pn, op) {
        assert forall|k: int| 0 <= k < listeners.len() implies #[trigger] hears(
            a + b,
            listeners[k],
            pn,
            op,
        ) by {
            assert(hears(b, listeners[k], pn, op));
            let i = choose|i: int| 0 <= i < b.len() && #[trigger] tells(b[i], listeners[k], pn, op);
            assert(tells((a + b)[a.len() + i], listeners[k], pn, op));
        }
    }
}

proof fn lemma_notices_heard(cache: CacheView, pn: u32, page: PageCache, op: PageOperation)
    ensures
        all_hear(cache.notices(pn, page, op), cache.listeners, pn, op),
{
    let e = cache.notices(pn, page, op);
    assert forall|k: int| 0 <= k < cache.listeners.len() implies #[trigger] hears(
        e,
        cache.listeners[k],
        pn,
        op,
    ) by {
        assert(tells(e[k], cache.listeners[k], pn, op));
    }
}

/// Telling the listeners of a page tells each of them once, in their order, and does
/// nothing else.
pub proof fn law_notify_tells_every_listener(
    shared: CachedFileShared,
    pn: u32,
    page: PageCache,
    op: PageOperation,
    effects: &mut Vec<Effect>,
)
    requires
        call_ensures(CachedFileShared::notify, (&shared, pn, page, op, effects), ()),
    ensures
        ({
            let had = old(effects)@.len();
            let n = shared@.listeners.len();
            &&& final(effects)@.len() == had + n
            &&& forall|i: int| 0 <= i < had ==> #[trigger] final(effects)@[i] == old(effects)@[i]
            &&& forall|k: int|
                0 <= k < n ==> #[trigger] final(effects)@[had + k] == (Effect::Notify {
                    listener: shared@.listeners[k],
                    pn,
                    page,
                    op,
                })
        }),
{
}

/// Whether all listeners are told of each page that was in a cache and is not in
/// another.
pub open spec fn leaving_is_told(before: CacheView, after: CacheView, effects: Seq<Effect>) -> bool {
    forall|pn: u32| #[trigger]
        page_map(before.pages).dom().contains(pn) && !page_map(after.pages).dom().contains(pn)
            ==> all_hear(effects, before.listeners, pn, PageOperation::Unmap)
}

/// A fetch that begins tells the listeners of the page that leaves for the new one.
pub proof fn law_fetch_tells_what_leaves(f: PageFetch, cache: CacheView)
    requires
        cache.wf(),
        f.awaits(Reply::Start),
    ensures
        leaving_is_told(
            cache,
            f.after(cache, Reply::Start).cache,
            f.after(cache, Reply::Start).effects,
        ),
{
    reveal(PageFetch::after);
    lemma_touched(cache.pages, f.pn);
    if !has_key(cache.pages, f.pn) && cache.full() {
        let (pn, page) = cache.pages.last();
        let rest = cache.with_pages(cache.pages.drop_last());
        lemma_drop_last(cache.pages);
        lemma_notices_heard(cache, pn, page, PageOperation::Unmap);
        let s = Eviction { pn, page, state: EvictState::Begin }.after(rest, Reply::Start);
        assert(s.effects =~= cache.notices(pn, page, PageOperation::Unmap));
        lemma_hear_more(
            s.effects,
            seq![Effect::FreePage(page)],
            cache.listeners,
            pn,
            PageOperation::Unmap,
        );
        assert(page_map(rest.pages) == page_map(cache.pages).remove(pn));
    }
}

proof fn lemma_drained_told(cache: CacheView)
    requires
        distinct(cache.pages),
    ensures
        leaving_is_told(cache, drained(cache).0, drained(cache).1),
        drained(cache).0.listeners == cache.listeners,
    decreases cache.pages.len(),
{
    if cache.pages.len() > 0 {
        let (pn, page) = cache.pages.last();
        let rest = cache.with_pages(cache.pages.drop_last());
        let notices = cache.notices(pn, page, PageOperation::Unmap);
        lemma_drop_last(cache.pages);
        lemma_notices_heard(cache, pn, page, PageOperation::Unmap);
        if !page.dirty {
            lemma_drained_told(rest);
            let (left, more, _) = drained(rest);
            let free = seq![Effect::FreePage(page)];
            assert forall|p: u32| #[trigger]
                page_map(cache.pages).dom().contains(p) && !page_map(left.pages).dom().contains(p) implies all_hear(
                notices + free + more,
                cache.listeners,
                p,
                PageOperation::Unmap,
            ) by {
                if p == pn {
                    lemma_hear_more(notices, free, cache.listeners, p, PageOperation::Unmap);
                } else {
                    assert(page_map(rest.pages).dom().contains(p));
                }
                lemma_hear_more(notices + free, more, cache.listeners, p, PageOperation::Unmap);
            }
        }
    }
}

/// A sync tells the listeners of every page that leaves.
pub proof fn law_sync_tells_what_leaves(t: CacheSync, cache: CacheView, reply: Reply)
    requires
        cache.wf(),
        t.awaits(reply),
    ensures
        leaving_is_told(cache, t.after(cache, reply).cache, t.after(cache, reply).effects),
{
    lemma_drained_told(cache);
    let (left, more, _) = drained(cache);
    match t.state {
        SyncState::Begin => {
            assert(Seq::<Effect>::empty() + more =~= more);
        },
        SyncState::Evicting => {
            let s = t.eviction.after(cache, reply);
            if let Turn::Finished(Ok(page)) = s.turn {
                let front = s.effects + seq![Effect::FreePage(page)];
                assert forall|p: u32| #[trigger]
                    page_map(cache.pages).dom().contains(p) && !page_map(left.pages).dom().contains(p) implies all_hear(
                    front + more,
                    cache.listeners,
                    p,
                    PageOperation::Unmap,
                ) by {
                    lemma_hear_more(front, more, cache.listeners, p, PageOperation::Unmap);
                }
            }
        },
        _ => {},
    }
}

proof fn lemma_going_told(t: Split, cache: CacheView)
    requires
        distinct(cache.pages),
        0 < cache.cap,
        cache.pages.len() <= cache.cap,
    ensures
        leaving_is_told(cache, t.going(cache).cache, t.going(cache).effects),
    decreases THP_NR_4K_PAGES - t.done,
{
    if t.done < THP_NR_4K_PAGES {
        let k = (t.base_pn + t.done) as u32;
        let small = t.small(t.done as int);
        if cache.full() {
            let (pn, page) = cache.pages.last();
            let rest = cache.with_pages(cache.pages.drop_last());
            let notices = cache.notices(pn, page, PageOperation::Unmap);
            lemma_drop_last(cache.pages);
            lemma_notices_heard(cache, pn, page, PageOperation::Unmap);
            if !page.dirty {
                lemma_pushed(rest.pages, rest.cap, k, small);
                let next = t.one_more().going(t.one_in(rest));
                lemma_going_told(t.one_more(), t.one_in(rest));
                let front = notices + seq![Effect::FreePage(page)] + t.one_out(rest);
                assert forall|p: u32| #[trigger]
                    page_map(cache.pages).dom().contains(p) && !page_map(next.cache.pages).dom().contains(
                        p,
                    ) implies all_hear(
                    front + next.effects,
                    cache.listeners,
                    p,
                    PageOperation::Unmap,
                ) by {
                    let free = seq![Effect::FreePage(page)];
                    lemma_hear_more(notices, free, cache.listeners, p, PageOperation::Unmap);
                    lemma_hear_more(
                        notices + free,
                        t.one_out(rest),
                        cache.listeners,
                        p,
                        PageOperation::Unmap,
                    );
                    lemma_hear_more(front, next.effects, cache.listeners, p, PageOperation::Unmap);
                    if p != pn {
                        assert(page_map(t.one_in(rest).pages).dom().contains(p));
                    }
                }
            }
        } else {
            lemma_pushed(cache.pages, cache.cap, k, small);
            let next = t.one_more().going(t.one_in(cache));
            lemma_going_told(t.one_more(), t.one_in(cache));
            assert forall|p: u32| #[trigger]
                page_map(cache.pages).dom().contains(p) && !page_map(next.cache.pages).dom().contains(p) implies all_hear(
                t.one_out(cache) + next.effects,
                cache.listeners,
                p,
                PageOperation::Unmap,
            ) by {
                assert(page_map(t.one_in(cache).pages).dom().contains(p));
                lemma_hear_more(
                    t.one_out(cache),
                    next.effects,
                    cache.listeners,
                    p,
                    PageOperation::Unmap,
                );
            }
        }
    }
}

/// A split tells the listeners to split the huge page too, and of every other page
/// that leaves for its small pages. The huge page is not cached any more.
pub proof fn law_split_tells_what_leaves(t: Split, cache: CacheView)
    requires
        cache.wf(),
        t.awaits(Reply::Start),
        t.splits(cache),
    ensures
        ({
            let s = t.after(cache, Reply::Start);
            let base = chunk_from(page_map(cache.pages), 0, t.pn as int).0.unwrap();
            &&& all_hear(s.effects, cache.listeners, base, PageOperation::Demote)
            &&& forall|pn: u32| #[trigger]
                page_map(cache.pages).dom().contains(pn) && pn != base && !page_map(
                    s.cache.pages,
                ).dom().contains(pn) ==> all_hear(
                    s.effects,
                    cache.listeners,
                    pn,
                    PageOperation::Unmap,
                )
        }),
{
    reveal(Split::after);
    let m = page_map(cache.pages);
    let base = chunk_from(m, 0, t.pn as int).0.unwrap();
    let order = chunk_order(cache.pages, m, 0, t.pn as int);
    lemma_chunk_found(m, 0, t.pn as int);
    lemma_chunk_order(cache.pages, m, 0, t.pn as int);
    lemma_lookup_map(order, base);
    let huge = lookup(order, base).unwrap();
    lemma_touched(order, base);
    lemma_without(touched(order, base), base);
    let u = Split { base_pn: base, huge, done: 0, ..t };
    let c = cache.with_pages(without(touched(order, base), base));
    assert(page_map(c.pages) == m.remove(base));
    lemma_going_told(u, c);
    let notices = cache.notices(base, huge, PageOperation::Demote);
    let more = u.going(c).effects;
    lemma_notices_heard(cache, base, huge, PageOperation::Demote);
    lemma_hear_more(notices, more, cache.listeners, base, PageOperation::Demote);
    assert forall|pn: u32| #[trigger]
        m.dom().contains(pn) && pn != base && !page_map(u.going(c).cache.pages).dom().contains(pn) implies all_hear(
        notices + more,
        cache.listeners,
        pn,
        PageOperation::Unmap,
    ) by {
        assert(page_map(c.pages).dom().contains(pn));
        lemma_hear_more(notices, more, cache.listeners, pn, PageOperation::Unmap);
    }
}

proof fn lemma_discards_told(cache: CacheView, s: Seq<(u32, PageCache)>, pn: u32)
    ensures
        forall|i: int|
            0 <= i < s.len() && (#[trigger] s[i]).0 > pn ==> all_hear(
                discards(cache, false, s, pn),
                cache.listeners,
                s[i].0,
                PageOperation::Unmap,
            ),
    decreases s.len(),
{
    if s.len() > 0 {
        lemma_discards_told(cache, s.drop_last(), pn);
        let front = discards(cache, false, s.drop_last(), pn);
        let (last, page) = s.last();
        let clean = crate::fs::evict::cleaned(page);
        let notices = cache.notices(last, clean, PageOperation::Unmap);
        let free = seq![Effect::FreePage(clean)];
        lemma_notices_heard(cache, last, clean, PageOperation::Unmap);
        assert forall|i: int| 0 <= i < s.len() && (#[trigger] s[i]).0 > pn implies all_hear(
            discards(cache, false, s, pn),
            cache.listeners,
            s[i].0,
            PageOperation::Unmap,
        ) by {
            if i < s.len() - 1 {
                assert(s.drop_last()[i] == s[i]);
            } else {
                lemma_hear_more(notices, free, cache.listeners, last, PageOperation::Unmap);
            }
            lemma_hear_more(
                front,
                notices + free,
                cache.listeners,
                s[i].0,
                PageOperation::Unmap,
            );
        }
    }
}

/// A file with a device whose length is set tells the listeners of every page that
/// leaves.
pub proof fn law_resize_tells_what_leaves(t: Resize, cache: CacheView)
    requires
        cache.wf(),
        t.state is AwaitSet,
        t.wf(),
        !t.file.in_memory,
    ensures
        leaving_is_told(
            cache,
            t.after(cache, Reply::Done).cache,
            t.after(cache, Reply::Done).effects,
        ),
{
    let m = page_map(cache.pages);
    let shorter = t.shorter();
    let pn = offset_from(m, 0, shorter) as u32;
    let order = offset_order(cache.pages, m, 0, shorter);
    lemma_offset_order(cache.pages, m, 0, shorter);
    if t.old_len < t.len {
        lemma_touched(order, pn);
    } else {
        lemma_kept_map(order, pn);
        lemma_discards_told(cache, order, pn);
        assert forall|p: u32| #[trigger]
            m.dom().contains(p) && !page_map(kept(order, pn)).dom().contains(p) implies all_hear(
            discards(cache, false, order, pn),
            cache.listeners,
            p,
            PageOperation::Unmap,
        ) by {
            assert(has_key(order, p));
            let i = choose|i: int| 0 <= i < order.len() && (#[trigger] order[i]).0 == p;
            assert(order[i].0 > pn);
        }
    }
}

proof fn lemma_unmaps_told(s: Seq<(u32, PageCache)>, start: u32, n: nat, listener: usize, p: u32)
    requires
        distinct(s),
        start + n <= u32::MAX,
        page_map(s).dom().contains(p),
        start <= p < start + n,
    ensures
        hears(unmaps(s, start, n, listener), listener, p, PageOperation::Unmap),
    decreases n,
{
    let k = (n - 1) as nat;
    let pn = (start + n - 1) as u32;
    let front = unmaps(s, start, k, listener);
    let all = unmaps(s, start, n, listener);
    lemma_swept(s, start, k);
    lemma_lookup_map(swept(s, start, k), pn);
    if p == pn {
        let e = all[all.len() - 1];
        assert(tells(e, listener, p, PageOperation::Unmap));
    } else {
        lemma_unmaps_told(s, start, k, listener, p);
        let i = choose|i: int| 0 <= i < front.len() && #[trigger] tells(
            front[i],
            listener,
            p,
            PageOperation::Unmap,
        );
        assert(tells(all[i], listener, p, PageOperation::Unmap));
    }
}

proof fn lemma_retracts_told(cache: CacheView, start: u32, rounds: nat, j: int, p: u32)
    requires
        distinct(cache.pages),
        start + THP_NR_4K_PAGES <= u32::MAX,
        rounds <= cache.listeners.len(),
        0 <= j < rounds,
        page_map(cache.pages).dom().contains(p),
        start <= p < start + THP_NR_4K_PAGES,
    ensures
        hears(retracts(cache, start, rounds), cache.listeners[j], p, PageOperation::Unmap),
    decreases rounds,
{
    let k = (rounds - 1) as nat;
    let front = retracts(cache, start, k);
    let all = retracts(cache, start, rounds);
    let s = swept_over(cache.pages, start, k);
    lemma_swept_over(cache.pages, start, k);
    let more = unmaps(s, start, THP_NR_4K_PAGES as nat, cache.listeners[k as int]);
    if j == k {
        lemma_unmaps_told(s, start, THP_NR_4K_PAGES as nat, cache.listeners[j], p);
        let i = choose|i: int| 0 <= i < more.len() && #[trigger] tells(
            more[i],
            cache.listeners[j],
            p,
            PageOperation::Unmap,
        );
        assert(tells(all[front.len() + i], cache.listeners[j], p, PageOperation::Unmap));
    } else {
        lemma_retracts_told(cache, start, k, j, p);
        let i = choose|i: int| 0 <= i < front.len() && #[trigger] tells(
            front[i],
            cache.listeners[j],
            p,
            PageOperation::Unmap,
        );
        assert(tells(all[i], cache.listeners[j], p, PageOperation::Unmap));
    }
}

/// Before small pages are merged the listeners are told to unmap each of them that
/// is cached.
pub proof fn law_merge_tells_what_leaves(t: Merge, cache: CacheView)
    requires
        cache.wf(),
        t.wf(),
        t.awaits(Reply::Start),
    ensures
        forall|p: u32| #[trigger]
            page_map(cache.pages).dom().contains(p) && t.start_pn <= p < t.start_pn + 512
                ==> all_hear(
                t.after(cache, Reply::Start).effects,
                cache.listeners,
                p,
                PageOperation::Unmap,
            ),
{
    let e = t.after(cache, Reply::Start).effects;
    assert forall|p: u32| #[trigger]
        page_map(cache.pages).dom().contains(p) && t.start_pn <= p < t.start_pn + 512 implies all_hear(
        e,
        cache.listeners,
        p,
        PageOperation::Unmap,
    ) by {
        assert forall|j: int| 0 <= j < cache.listeners.len() implies #[trigger] hears(
            e,
            cache.listeners[j],
            p,
            PageOperation::Unmap,
        ) by {
            lemma_retracts_told(cache, t.start_pn, cache.listeners.len(), j, p);
        }
    }
}

} // verus!
