//! The memory of every page that leaves a cache is given back.

use vstd::prelude::*;
use crate::addr::{PAGE_SIZE_2M, THP_NR_4K_PAGES};
use crate::effect::{Effect, Reply, Turn};
use crate::fs::cache::CacheView;
use crate::fs::chunks::{chunk_from, chunk_order, covers, lemma_chunk_order, offset_from, offset_order};
use crate::fs::evict::cleaned;
use crate::fs::fetch::{freed, PageFetch};
use crate::fs::merge::{copies, swept, vacated, vacates, Merge};
use crate::fs::merge_law::{lemma_swept, lemma_vacated};
use crate::fs::page::PageCache;
use crate::fs::recency::{
    displaced, distinct, has_key, lemma_drop_last, lemma_lookup_map, lemma_pushed, lemma_touched,
    lemma_without, lookup, page_map, pos, touched, without,
};
use crate::fs::resize::{discards, kept, lemma_kept_map, Resize};
use crate::fs::split::{lemma_chunk_found, Split};
use crate::fs::sync::{drained, CacheSync, SyncState};
use crate::fs::transfer::Transfer;
use crate::fs::transfer_law::lemma_offset_order;

verus! {

/// Whether an effect gives the memory of a page back.
pub open spec fn frees_page(e: Effect, page: PageCache) -> bool {
    e matches Effect::FreePage(p) && p.paddr == page.paddr && p.size == page.size
}

/// Whether the memory of a page is given back.
pub open spec fn gives_back(effects: Seq<Effect>, page: PageCache) -> bool {
    exists|i: int| 0 <= i < effects.len() && #[trigger] frees_page(effects[i], page)
}

proof fn lemma_gives_more(a: Seq<Effect>, b: Seq<Effect>, page: PageCache)
    ensures
        gives_back(a, page) ==> gives_back(a + b, page),
        gives_back(b, page) ==> gives_back(a + b, page),
{
    if gives_back(a, page) {
        let i = choose|i: int| 0 <= i < a.len() && #[trigger] frees_page(a[i], page);
        assert(frees_page((a + b)[i], page));
    }
    if gives_back(b, page) {
        let i = choose|i: int| 0 <= i < b.len() && #[trigger] frees_page(b[i], page);
        assert(frees_page((a + b)[a.len() + i], page));
    }
}

proof fn lemma_gives_one(page: PageCache, as_it_is: PageCache)
    requires
        page.paddr == as_it_is.paddr,
        page.size == as_it_is.size,
    ensures
        gives_back(seq![Effect::FreePage(page)], as_it_is),
{
    assert(frees_page(seq![Effect::FreePage(page)][0], as_it_is));
}

/// Whether the memory of each clean page that was in a cache and is not in another is
/// given back.
pub open spec fn clean_leaving_is_freed(before: CacheView, after: CacheView, effects: Seq<Effect>) -> bool {
    forall|pn: u32| #[trigger]
        page_map(before.pages).dom().contains(pn) && !page_map(after.pages).dom().contains(pn)
            && !page_map(before.pages)[pn].dirty ==> gives_back(effects, page_map(before.pages)[pn])
}

/// A fetch remembers the page that left for its own until it ends, and hands it on
/// then; if it fails it gives its memory back. Of a full cache it is the page that
/// was used least recently, once its contents are in the file.
pub proof fn law_fetch_remembers_what_left(f: PageFetch, cache: CacheView, reply: Reply)
    requires
        cache.wf(),
        f.wf(),
        f.awaits(reply),
    ensures
        ({
            let s = f.after(cache, reply);
            let e = f.eviction;
            &&& f.state is Begin && !has_key(cache.pages, f.pn) && cache.full() ==> {
                let (pn, page) = cache.pages.last();
                if page.dirty {
                    s.next.eviction.pn == pn && s.next.eviction.page == page
                } else {
                    s.next.evicted == Some((pn, page))
                }
            }
            &&& f.state is Evicting && s.turn is Ask ==> s.next.state is Evicting || (
            s.next.evicted matches Some((pn, page)) && pn == e.pn && page.paddr == e.page.paddr
                && page.size == e.page.size)
            &&& f.state is Evicting && s.next.state is Evicting ==> s.next.eviction.pn == e.pn
                && s.next.eviction.page == e.page
            &&& f.state is AwaitPage || f.state is AwaitRead ==> s.next.evicted == f.evicted
            &&& s.turn matches Turn::Finished(Ok(fetched)) ==> f.state is Begin || fetched.evicted
                == f.evicted
            &&& s.turn matches Turn::Finished(Err(_)) ==> {
                &&& f.state is Evicting ==> gives_back(s.effects, e.page)
                &&& !(f.state is Evicting) ==> (f.evicted matches Some(entry) ==> gives_back(
                    s.effects,
                    entry.1,
                ))
                &&& f.state is AwaitRead ==> gives_back(s.effects, f.fresh)
            }
        }),
{
    reveal(PageFetch::after);
    let s = f.after(cache, reply);
    if let Turn::Finished(Err(_)) = s.turn {
        if f.state is Evicting {
            lemma_gives_one(f.eviction.page, f.eviction.page);
            lemma_gives_more(
                f.eviction.after(cache, reply).effects,
                seq![Effect::FreePage(f.eviction.page)],
                f.eviction.page,
            );
        } else {
            if let Some(entry) = f.evicted {
                lemma_gives_one(entry.1, entry.1);
                lemma_gives_more(seq![Effect::FreePage(f.fresh)], freed(f.evicted), entry.1);
            }
            lemma_gives_one(f.fresh, f.fresh);
            lemma_gives_more(seq![Effect::FreePage(f.fresh)], freed(f.evicted), f.fresh);
        }
    }
}

/// A transfer gives the memory of the page that left for another back.
pub proof fn law_transfer_frees_what_left(t: Transfer, cache: CacheView, reply: Reply, entry: (u32, PageCache))
    requires
        t.state is Fetching,
        t.fetch.after(cache, reply).turn matches Turn::Finished(Ok(fetched)) && fetched.evicted == Some(
            entry,
        ),
    ensures
        gives_back(t.after(cache, reply).effects, entry.1),
{
    lemma_gives_one(entry.1, entry.1);
    lemma_gives_more(t.fetch.after(cache, reply).effects, seq![Effect::FreePage(entry.1)], entry.1);
}

proof fn lemma_drained_freed(cache: CacheView)
    requires
        distinct(cache.pages),
    ensures
        clean_leaving_is_freed(cache, drained(cache).0, drained(cache).1),
    decreases cache.pages.len(),
{
    if cache.pages.len() > 0 {
        let (pn, page) = cache.pages.last();
        let m = page_map(cache.pages);
        let rest = cache.with_pages(cache.pages.drop_last());
        let notices = cache.notices(pn, page, crate::fs::page::PageOperation::Unmap);
        lemma_drop_last(cache.pages);
        crate::fs::recency::lemma_at(cache.pages, cache.pages.len() - 1);
        if !page.dirty {
            lemma_drained_freed(rest);
            let (left, more, _) = drained(rest);
            let free = seq![Effect::FreePage(page)];
            assert forall|p: u32| #[trigger]
                m.dom().contains(p) && !page_map(left.pages).dom().contains(p) && !m[p].dirty implies gives_back(
                notices + free + more,
                m[p],
            ) by {
                if p == pn {
                    lemma_gives_one(page, page);
                    lemma_gives_more(notices, free, m[p]);
                } else {
                    assert(page_map(rest.pages).dom().contains(p));
                    assert(page_map(rest.pages)[p] == m[p]);
                }
                lemma_gives_more(notices + free, more, m[p]);
            }
        }
    }
}

/// A sync gives the memory of every clean page that leaves back at once, and that of a
/// dirty one when it was written, or could not be.
pub proof fn law_sync_frees_what_leaves(t: CacheSync, cache: CacheView, reply: Reply)
    requires
        cache.wf(),
        t.awaits(reply),
    ensures
        clean_leaving_is_freed(cache, t.after(cache, reply).cache, t.after(cache, reply).effects),
        t.state is Evicting && !(t.after(cache, reply).next.state is Evicting && t.after(
            cache,
            reply,
        ).next.eviction.pn == t.eviction.pn && t.after(cache, reply).cache == cache) ==> gives_back(
            t.after(cache, reply).effects,
            t.eviction.page,
        ),
{
    lemma_drained_freed(cache);
    let m = page_map(cache.pages);
    let (left, more, _) = drained(cache);
    match t.state {
        SyncState::Begin => {
            assert(Seq::<Effect>::empty() + more =~= more);
        },
        SyncState::Evicting => {
            let s = t.eviction.after(cache, reply);
            if let Turn::Finished(result) = s.turn {
                let page = match result {
                    Ok(page) => page,
                    Err(_) => t.eviction.page,
                };
                let front = s.effects + seq![Effect::FreePage(page)];
                lemma_gives_one(page, t.eviction.page);
                lemma_gives_more(s.effects, seq![Effect::FreePage(page)], t.eviction.page);
                lemma_gives_more(front, more, t.eviction.page);
                assert forall|p: u32| #[trigger]
                    m.dom().contains(p) && !page_map(left.pages).dom().contains(p) && !m[p].dirty implies gives_back(
                    front + more,
                    m[p],
                ) by {
                    lemma_gives_more(front, more, m[p]);
                }
            }
        },
        _ => {},
    }
}

/// Whether every huge page of a cache was in another.
pub open spec fn no_new_huge(after: Map<u32, PageCache>, before: Map<u32, PageCache>) -> bool {
    forall|q: u32| #[trigger]
        after.dom().contains(q) && after[q].size == PAGE_SIZE_2M ==> before.dom().contains(q)
            && before[q] == after[q]
}

proof fn lemma_going_freed(t: Split, cache: CacheView)
    requires
        distinct(cache.pages),
        0 < cache.cap,
        cache.pages.len() <= cache.cap,
        t.base_pn + THP_NR_4K_PAGES <= u32::MAX,
    ensures
        no_new_huge(page_map(t.going(cache).cache.pages), page_map(cache.pages)),
        forall|q: u32| #[trigger]
            page_map(cache.pages).dom().contains(q) && !page_map(cache.pages)[q].dirty && !(t.base_pn
                + t.done <= q < t.base_pn + 512) && !page_map(t.going(cache).cache.pages).dom().contains(
                q,
            ) ==> gives_back(t.going(cache).effects, page_map(cache.pages)[q]),
    decreases THP_NR_4K_PAGES - t.done,
{
    let m = page_map(cache.pages);
    if t.done < THP_NR_4K_PAGES {
        let k = (t.base_pn + t.done) as u32;
        let small = t.small(t.done as int);
        if cache.full() {
            let (pn, page) = cache.pages.last();
            let rest = cache.with_pages(cache.pages.drop_last());
            let notices = cache.notices(pn, page, crate::fs::page::PageOperation::Unmap);
            lemma_drop_last(cache.pages);
            crate::fs::recency::lemma_at(cache.pages, cache.pages.len() - 1);
            if page.dirty {
                let n = page_map(rest.pages);
                assert forall|q: u32| #[trigger]
                    n.dom().contains(q) && n[q].size == PAGE_SIZE_2M implies m.dom().contains(q) && m[q]
                    == n[q] by {}
            } else {
                lemma_pushed(rest.pages, rest.cap, k, small);
                let next = t.one_more().going(t.one_in(rest));
                lemma_going_freed(t.one_more(), t.one_in(rest));
                let n = page_map(t.one_in(rest).pages);
                assert(n == page_map(rest.pages).insert(k, small));
                let free = seq![Effect::FreePage(page)];
                let front = notices + free + t.one_out(rest);
                assert forall|q: u32| #[trigger]
                    m.dom().contains(q) && !m[q].dirty && !(t.base_pn + t.done <= q < t.base_pn + 512)
                        && !page_map(next.cache.pages).dom().contains(q) implies gives_back(
                    front + next.effects,
                    m[q],
                ) by {
                    if q == pn {
                        lemma_gives_one(page, m[q]);
                        lemma_gives_more(notices, free, m[q]);
                        lemma_gives_more(notices + free, t.one_out(rest), m[q]);
                    } else {
                        assert(n.dom().contains(q) && n[q] == m[q]);
                    }
                    lemma_gives_more(front, next.effects, m[q]);
                }
                let last = page_map(next.cache.pages);
                assert forall|q: u32| #[trigger]
                    last.dom().contains(q) && last[q].size == PAGE_SIZE_2M implies m.dom().contains(q)
                    && m[q] == last[q] by {
                    assert(n.dom().contains(q) && n[q] == last[q]);
                }
            }
        } else {
            lemma_pushed(cache.pages, cache.cap, k, small);
            let next = t.one_more().going(t.one_in(cache));
            lemma_going_freed(t.one_more(), t.one_in(cache));
            let n = page_map(t.one_in(cache).pages);
            assert(n == m.insert(k, small));
            assert forall|q: u32| #[trigger]
                m.dom().contains(q) && !m[q].dirty && !(t.base_pn + t.done <= q < t.base_pn + 512)
                    && !page_map(next.cache.pages).dom().contains(q) implies gives_back(
                t.one_out(cache) + next.effects,
                m[q],
            ) by {
                assert(n.dom().contains(q) && n[q] == m[q]);
                lemma_gives_more(t.one_out(cache), next.effects, m[q]);
            }
            let last = page_map(next.cache.pages);
            assert forall|q: u32| #[trigger]
                last.dom().contains(q) && last[q].size == PAGE_SIZE_2M implies m.dom().contains(q)
                && m[q] == last[q] by {
                assert(n.dom().contains(q) && n[q] == last[q]);
            }
        }
    }
}

proof fn lemma_chunk_covers(m: Map<u32, PageCache>, at: int, pn: int)
    requires
        0 <= at,
        pn <= u32::MAX,
        chunk_from(m, at, pn).0 is Some,
    ensures
        covers(m, chunk_from(m, at, pn).0.unwrap() as int, pn),
    decreases pn - at + 1,
{
    if at <= pn && !covers(m, at, pn) {
        lemma_chunk_covers(m, at + crate::fs::chunks::step(m, at), pn);
    }
}

/// A split takes the huge page out of the cache: no huge page is cached for its number
/// any more, and no new one. The memory of every other clean page that leaves is given
/// back, but not that of the huge page, whose small pages have it.
pub proof fn law_split_takes_the_huge_page_out(t: Split, cache: CacheView)
    requires
        cache.wf(),
        t.wf(),
        t.awaits(Reply::Start),
        t.splits(cache),
    ensures
        ({
            let s = t.after(cache, Reply::Start);
            let m = page_map(cache.pages);
            let n = page_map(s.cache.pages);
            let base = chunk_from(m, 0, t.pn as int).0.unwrap();
            &&& base <= t.pn < base + 512
            &&& no_new_huge(n, m.remove(base))
            &&& forall|q: u32| #[trigger]
                m.dom().contains(q) && !m[q].dirty && !(base <= q < base + 512) && !n.dom().contains(q)
                    ==> gives_back(s.effects, m[q])
        }),
{
    reveal(Split::after);
    let m = page_map(cache.pages);
    let base = chunk_from(m, 0, t.pn as int).0.unwrap();
    let order = chunk_order(cache.pages, m, 0, t.pn as int);
    lemma_chunk_found(m, 0, t.pn as int);
    lemma_chunk_covers(m, 0, t.pn as int);
    lemma_chunk_order(cache.pages, m, 0, t.pn as int);
    lemma_lookup_map(order, base);
    let huge = lookup(order, base).unwrap();
    lemma_touched(order, base);
    lemma_without(touched(order, base), base);
    let u = Split { base_pn: base, huge, done: 0, ..t };
    let c = cache.with_pages(without(touched(order, base), base));
    assert(page_map(c.pages) == m.remove(base));
    lemma_going_freed(u, c);
    let notices = cache.notices(base, huge, crate::fs::page::PageOperation::Demote);
    let more = u.going(c).effects;
    let n = page_map(u.going(c).cache.pages);
    assert forall|q: u32| #[trigger]
        m.dom().contains(q) && !m[q].dirty && !(base <= q < base + 512) && !n.dom().contains(q) implies gives_back(
        notices + more,
        m[q],
    ) by {
        assert(page_map(c.pages).dom().contains(q));
        lemma_gives_more(notices, more, m[q]);
    }
}

proof fn lemma_discards_freed(cache: CacheView, in_memory: bool, s: Seq<(u32, PageCache)>, pn: u32)
    ensures
        forall|i: int|
            0 <= i < s.len() && (#[trigger] s[i]).0 > pn ==> gives_back(
                discards(cache, in_memory, s, pn),
                s[i].1,
            ),
    decreases s.len(),
{
    if s.len() > 0 {
        lemma_discards_freed(cache, in_memory, s.drop_last(), pn);
        let front = discards(cache, in_memory, s.drop_last(), pn);
        let (last, page) = s.last();
        let clean = if in_memory {
            page
        } else {
            cleaned(page)
        };
        let notices = if in_memory {
            Seq::empty()
        } else {
            cache.notices(last, clean, crate::fs::page::PageOperation::Unmap)
        };
        let free = seq![Effect::FreePage(clean)];
        let one = crate::fs::resize::discard(cache, in_memory, s.last());
        assert(one =~= notices + free);
        assert forall|i: int| 0 <= i < s.len() && (#[trigger] s[i]).0 > pn implies gives_back(
            discards(cache, in_memory, s, pn),
            s[i].1,
        ) by {
            if i < s.len() - 1 {
                assert(s.drop_last()[i] == s[i]);
            } else {
                lemma_gives_one(clean, s[i].1);
                lemma_gives_more(notices, free, s[i].1);
            }
            lemma_gives_more(front, one, s[i].1);
        }
    }
}

/// A change of length gives the memory of every page that leaves back.
pub proof fn law_resize_frees_what_leaves(t: Resize, cache: CacheView)
    requires
        cache.wf(),
        t.state is AwaitSet,
        t.wf(),
    ensures
        ({
            let s = t.after(cache, Reply::Done);
            let m = page_map(cache.pages);
            forall|p: u32| #[trigger]
                m.dom().contains(p) && !page_map(s.cache.pages).dom().contains(p) ==> gives_back(
                    s.effects,
                    m[p],
                )
        }),
{
    let m = page_map(cache.pages);
    let shorter = t.shorter();
    let pn = offset_from(m, 0, shorter) as u32;
    let order = offset_order(cache.pages, m, 0, shorter);
    lemma_offset_order(cache.pages, m, 0, shorter);
    if t.old_len < t.len {
        lemma_touched(order, pn);
    } else {
        lemma_kept_map(order, pn);
        lemma_discards_freed(cache, t.file.in_memory, order, pn);
        assert forall|p: u32| #[trigger]
            m.dom().contains(p) && !page_map(kept(order, pn)).dom().contains(p) implies gives_back(
            discards(cache, t.file.in_memory, order, pn),
            m[p],
        ) by {
            assert(has_key(order, p));
            let i = pos(order, p);
            assert(0 <= i < order.len() && order[i].0 == p);
            assert(order[i].0 > pn);
            assert(page_map(order)[p] == order[i].1);
        }
    }
}

proof fn lemma_vacates_freed(s: Seq<(u32, PageCache)>, start: u32, n: nat, in_memory: bool, p: u32)
    requires
        distinct(s),
        start + n <= u32::MAX,
        page_map(s).dom().contains(p),
        start <= p < start + n,
    ensures
        gives_back(vacates(s, start, n, in_memory), page_map(s)[p]),
    decreases n,
{
    let k = (n - 1) as nat;
    let pn = (start + n - 1) as u32;
    let front = vacates(s, start, k, in_memory);
    lemma_vacated(s, start, k);
    lemma_lookup_map(vacated(s, start, k), pn);
    let page = page_map(s)[p];
    if p == pn {
        let gone = if in_memory {
            page
        } else {
            cleaned(page)
        };
        lemma_gives_one(gone, page);
        lemma_gives_more(front, seq![Effect::FreePage(gone)], page);
    } else {
        lemma_vacates_freed(s, start, k, in_memory, p);
        match lookup(vacated(s, start, k), pn) {
            Some(other) => {
                let gone = if in_memory {
                    other
                } else {
                    cleaned(other)
                };
                lemma_gives_more(front, seq![Effect::FreePage(gone)], page);
            },
            None => {
                lemma_gives_more(front, Seq::empty(), page);
            },
        }
    }
}

/// A merge gives the memory of every small page back that the huge one takes the place
/// of, and that of a page that leaves a full cache for it.
pub proof fn law_merge_frees_the_small_pages(t: Merge, cache: CacheView, paddr: usize)
    requires
        cache.wf(),
        t.wf(),
        t.state is AwaitPage,
    ensures
        forall|p: u32| #[trigger]
            page_map(cache.pages).dom().contains(p) && (t.start_pn <= p < t.start_pn + 512 || !page_map(
                t.after(cache, Reply::Addr(paddr)).cache.pages,
            ).dom().contains(p)) ==> gives_back(
                t.after(cache, Reply::Addr(paddr)).effects,
                page_map(cache.pages)[p],
            ),
{
    let n = THP_NR_4K_PAGES as nat;
    let m = page_map(cache.pages);
    let s = swept(cache.pages, t.start_pn, n);
    lemma_swept(cache.pages, t.start_pn, n);
    let c = copies(cache.pages, t.start_pn, n, paddr);
    let v = vacates(s, t.start_pn, n, t.in_memory);
    let w = vacated(s, t.start_pn, n);
    let left = displaced(w, cache.cap, t.start_pn);
    let out = freed(left);
    lemma_vacated(s, t.start_pn, n);
    lemma_pushed(w, cache.cap, t.start_pn, PageCache { paddr, dirty: false, size: PAGE_SIZE_2M });
    let after = t.after(cache, Reply::Addr(paddr));
    assert forall|p: u32| #[trigger] m.dom().contains(p) && (t.start_pn <= p < t.start_pn + 512 || !page_map(
        after.cache.pages,
    ).dom().contains(p)) implies gives_back(c + v + out, m[p]) by {
        if t.start_pn <= p < t.start_pn + 512 {
            lemma_vacates_freed(s, t.start_pn, n, t.in_memory, p);
            lemma_gives_more(c, v, m[p]);
        } else {
            assert(page_map(w).dom().contains(p) && page_map(w)[p] == m[p]);
            crate::fs::recency::lemma_at(w, w.len() - 1);
            lemma_gives_one(w.last().1, m[p]);
        }
        lemma_gives_more(c + v, out, m[p]);
    }
}

} // verus!
