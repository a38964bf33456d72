//! Giving cached pages up when memory is short.

use vstd::prelude::*;
use crate::addr::PAGE_SIZE_4K;
use crate::effect::Effect;
use crate::fs::cache::{CacheView, CachedFileShared};
use crate::fs::page::PageCache;
use crate::fs::recency::{distinct, has_key, pushed, without};

verus! {

/// Where the least recently used clean page stands, or -1 if there is none.
pub open spec fn last_clean(s: Seq<(u32, PageCache)>) -> int
    decreases s.len(),
{
    if s.len() == 0 {
        -1
    } else if !s.last().1.dirty {
        s.len() - 1
    } else {
        last_clean(s.drop_last())
    }
}

/// The pages after the least recently used clean one was given up: the dirty
/// ones that were used before it count as used.
pub open spec fn given_up(s: Seq<(u32, PageCache)>) -> Seq<(u32, PageCache)> {
    s.skip(last_clean(s) + 1) + s.take(last_clean(s))
}

/// The number of small pages in a page.
pub open spec fn small_pages(page: PageCache) -> nat {
    (page.size / PAGE_SIZE_4K) as nat
}

/// The pages after clean ones were given up until `need` small pages are free
/// or none is left, the pages that were given up in order, and the number of
/// small pages that are free.
pub open spec fn reclaimed(s: Seq<(u32, PageCache)>, need: int) -> (
    Seq<(u32, PageCache)>,
    Seq<PageCache>,
    nat,
)
    decreases s.len(),
{
    if need <= 0 || last_clean(s) < 0 || s.len() == 0 {
        (s, Seq::empty(), 0)
    } else if given_up(s).len() >= s.len() {
        arbitrary()
    } else {
        let page = s[last_clean(s)].1;
        let (pages, out, freed) = reclaimed(given_up(s), need - small_pages(page));
        (pages, seq![page] + out, small_pages(page) + freed)
    }
}

/// The memory of pages, given back.
pub open spec fn frees(pages: Seq<PageCache>) -> Seq<Effect> {
    pages.map_values(|page: PageCache| Effect::FreePage(page))
}

/// Whether pages may be taken from a cache: those of a file without a device
/// have no other place, and those that somebody listens for may be mapped.
pub open spec fn spare(cache: CacheView) -> bool {
    !cache.in_memory && cache.listeners.len() == 0
}

/// The caches after clean pages of the spare ones were given up, one cache
/// after the other, until `need` small pages are free; the pages that were
/// given up; and the number of small pages that are free.
pub open spec fn shrunk(caches: Seq<CacheView>, need: int) -> (Seq<CacheView>, Seq<PageCache>, nat)
    decreases caches.len(),
{
    if caches.len() == 0 {
        (caches, Seq::empty(), 0)
    } else {
        let (before, out, freed) = shrunk(caches.drop_last(), need);
        let cache = caches.last();
        if spare(cache) {
            let (pages, more, n) = reclaimed(cache.pages, need - freed);
            (before.push(cache.with_pages(pages)), out + more, freed + n)
        } else {
            (before.push(cache), out, freed)
        }
    }
}

/// The number of small pages in a list of pages.
pub open spec fn total(s: Seq<(u32, PageCache)>) -> nat
    decreases s.len(),
{
    if s.len() == 0 {
        0
    } else {
        total(s.drop_last()) + small_pages(s.last().1)
    }
}

/// The number of small pages in all caches.
pub open spec fn grand_total(caches: Seq<CacheView>) -> nat
    decreases caches.len(),
{
    if caches.len() == 0 {
        0
    } else {
        grand_total(caches.drop_last()) + total(caches.last().pages)
    }
}

pub proof fn lemma_last_clean(s: Seq<(u32, PageCache)>)
    ensures
        -1 <= last_clean(s) < s.len(),
        last_clean(s) >= 0 ==> !s[last_clean(s)].1.dirty,
        forall|i: int| last_clean(s) < i < s.len() ==> (#[trigger] s[i]).1.dirty,
    decreases s.len(),
{
    if s.len() > 0 && s.last().1.dirty {
        lemma_last_clean(s.drop_last());
        assert forall|i: int| last_clean(s) < i < s.len() implies (#[trigger] s[i]).1.dirty by {
            if i < s.len() - 1 {
                assert(s.drop_last()[i] == s[i]);
            }
        }
    }
}

proof fn lemma_total_concat(a: Seq<(u32, PageCache)>, b: Seq<(u32, PageCache)>)
    ensures
        total(a + b) == total(a) + total(b),
    decreases b.len(),
{
    if b.len() == 0 {
        assert(a + b =~= a);
    } else {
        assert((a + b).drop_last() =~= a + b.drop_last());
        lemma_total_concat(a, b.drop_last());
    }
}

/// Giving a page up takes its small pages off the total.
proof fn lemma_given_up_total(s: Seq<(u32, PageCache)>)
    requires
        last_clean(s) >= 0,
    ensures
        total(given_up(s)) + small_pages(s[last_clean(s)].1) == total(s),
        given_up(s).len() == s.len() - 1,
{
    lemma_last_clean(s);
    let q = last_clean(s);
    assert(s =~= s.take(q + 1) + s.skip(q + 1));
    lemma_total_concat(s.take(q + 1), s.skip(q + 1));
    assert(s.take(q + 1).drop_last() =~= s.take(q));
    assert(s.take(q + 1).last() == s[q]);
    lemma_total_concat(s.skip(q + 1), s.take(q));
}

/// No more small pages become free than there were.
proof fn lemma_reclaimed_total(s: Seq<(u32, PageCache)>, need: int)
    ensures
        reclaimed(s, need).2 + total(reclaimed(s, need).0) == total(s),
    decreases s.len(),
{
    if need <= 0 || last_clean(s) < 0 || s.len() == 0 {
    } else {
        lemma_given_up_total(s);
        lemma_reclaimed_total(given_up(s), need - small_pages(s[last_clean(s)].1));
    }
}

/// No more small pages become free than there were.
pub proof fn lemma_shrunk_total(caches: Seq<CacheView>, need: int)
    ensures
        shrunk(caches, need).2 <= grand_total(caches),
        shrunk(caches, need).0.len() == caches.len(),
    decreases caches.len(),
{
    if caches.len() > 0 {
        let (_, _, freed) = shrunk(caches.drop_last(), need);
        lemma_shrunk_total(caches.drop_last(), need);
        lemma_reclaimed_total(caches.last().pages, need - freed);
    }
}

proof fn lemma_grand_total_prefix(caches: Seq<CacheView>, n: int)
    requires
        0 <= n <= caches.len(),
    ensures
        grand_total(caches.take(n)) <= grand_total(caches),
    decreases caches.len() - n,
{
    if n < caches.len() {
        assert(caches.take(n + 1).drop_last() =~= caches.take(n));
        lemma_grand_total_prefix(caches, n + 1);
    } else {
        assert(caches.take(n) =~= caches);
    }
}

/// A page that was given up, turned back, is the page in front of the rest.
proof fn lemma_rotated(b: Seq<(u32, PageCache)>, k: int, cap: nat)
    requires
        distinct(b),
        0 <= k < b.len() <= cap,
    ensures
        ({
            let cur = b.skip(b.len() - k) + b.take(b.len() - k);
            &&& cur.len() == b.len()
            &&& cur.last() == b[b.len() - k - 1]
            &&& pushed(cur.drop_last(), cap, cur.last().0, cur.last().1) == b.skip(
                b.len() - k - 1,
            ) + b.take(b.len() - k - 1)
        }),
{
    let n = b.len() as int;
    let cur = b.skip(n - k) + b.take(n - k);
    let rest = cur.drop_last();
    let key = cur.last().0;
    assert(!has_key(rest, key)) by {
        if has_key(rest, key) {
            let i = choose|i: int| 0 <= i < rest.len() && (#[trigger] rest[i]).0 == key;
            let j = if i < k { n - k + i } else { i - k };
            assert(rest[i] == b[j]);
            if j < n - k - 1 {
                assert(b[j].0 != b[n - k - 1].0);
            } else {
                assert(b[n - k - 1].0 != b[j].0);
            }
        }
    }
    assert(without(rest, key) == rest);
    assert(seq![cur.last()] + rest =~= b.skip(n - k - 1) + b.take(n - k - 1));
}

/// Gives clean pages of one cache up.
fn reclaim_cache(
    shared: &mut CachedFileShared,
    target_pages: usize,
    freed: usize,
    effects: &mut Vec<Effect>,
) -> (r: usize)
    requires
        old(shared)@.wf(),
        freed + total(old(shared)@.pages) <= usize::MAX,
    ensures
        final(shared)@.wf(),
        ({
            let (pages, out, n) = reclaimed(old(shared)@.pages, target_pages - freed);
            &&& final(shared)@ == old(shared)@.with_pages(pages)
            &&& final(effects)@ == old(effects)@ + frees(out)
            &&& r == freed + n
        }),
{
    let ghost view = shared@;
    let ghost goal = reclaimed(view.pages, target_pages - freed);
    let ghost mut b = shared@.pages;
    let ghost mut gone = Seq::<PageCache>::empty();
    let mut freed_pages: usize = freed;
    let mut dirty_skips: usize = 0;
    proof {
        lemma_reclaimed_total(view.pages, target_pages - freed);
        assert(b.skip(b.len() as int) + b.take(b.len() as int) =~= b);
        assert(frees(gone) =~= Seq::empty());
        assert(gone + goal.1 =~= goal.1);
    }
    while freed_pages < target_pages
        invariant_except_break
            shared@ == view.with_pages(
                b.skip(b.len() - dirty_skips) + b.take(b.len() - dirty_skips),
            ),
            dirty_skips == 0 || (dirty_skips < b.len() && freed_pages < target_pages),
        invariant
            view == old(shared)@,
            goal == reclaimed(view.pages, target_pages - freed),
            goal.2 + freed <= usize::MAX,
            shared@.wf(),
            shared@ == view.with_pages(shared@.pages),
            distinct(b),
            b.len() <= view.cap,
            forall|i: int| b.len() - dirty_skips <= i < b.len() ==> (#[trigger] b[i]).1.dirty,
            effects@ == old(effects)@ + frees(gone),
            freed <= freed_pages,
            ({
                let (pages, out, n) = reclaimed(b, target_pages - freed_pages);
                &&& goal.0 == pages
                &&& goal.1 == gone + out
                &&& goal.2 + freed == freed_pages + n
            }),
        ensures
            (shared@.pages == b && last_clean(b) < 0) || (freed_pages >= target_pages && shared@.pages
                == b.skip(b.len() - dirty_skips) + b.take(b.len() - dirty_skips) && dirty_skips == 0),
        decreases b.len(), b.len() - dirty_skips,
    {
        proof {
            lemma_last_clean(b);
        }
        match shared.pop_lru() {
            None => {
                break;
            },
            Some(entry) => {
                let (pn, page) = entry;
                proof {
                    lemma_rotated(b, dirty_skips as int, view.cap);
                }
                if page.is_dirty() {
                    shared.push(pn, page);
                    let len: usize = shared.len();
                    dirty_skips = dirty_skips + 1;
                    if dirty_skips >= len {
                        proof {
                            assert(b.skip(0) + b.take(0) =~= b);
                        }
                        break;
                    }
                } else {
                    proof {
                        let q = b.len() - dirty_skips - 1;
                        assert(last_clean(b) == q);
                        lemma_given_up_total(b);
                        assert(shared@.pages =~= given_up(b));
                        let (pages, out, n) = reclaimed(
                            given_up(b),
                            target_pages - freed_pages - small_pages(page),
                        );
                        assert(gone + (seq![page] + out) =~= gone.push(page) + out);
                        assert(frees(gone).push(Effect::FreePage(page)) =~= frees(gone.push(page)));
                        b = given_up(b);
                        gone = gone.push(page);
                        assert(b.skip(b.len() as int) + b.take(b.len() as int) =~= b);
                    }
                    dirty_skips = 0;
                    freed_pages = freed_pages + page.size() / PAGE_SIZE_4K;
                    effects.push(Effect::FreePage(page));
                }
            },
        }
    }
    proof {
        lemma_last_clean(b);
        assert(b.skip(b.len() as int) + b.take(b.len() as int) =~= b);
        assert(gone + Seq::<PageCache>::empty() =~= gone);
    }
    freed_pages
}

/// Gives clean pages up until `target_pages` small pages are free or no spare
/// cache has one left. Returns how many small pages are free now.
pub fn shrink_page_cache(
    caches: &mut Vec<CachedFileShared>,
    target_pages: usize,
    effects: &mut Vec<Effect>,
) -> (r: usize)
    requires
        forall|i: int| 0 <= i < old(caches)@.len() ==> (#[trigger] old(caches)@[i])@.wf(),
        grand_total(views(old(caches)@)) <= usize::MAX,
    ensures
        forall|i: int| 0 <= i < final(caches)@.len() ==> (#[trigger] final(caches)@[i])@.wf(),
        ({
            let (left, out, freed) = shrunk(views(old(caches)@), target_pages as int);
            &&& views(final(caches)@) == left
            &&& final(effects)@ == old(effects)@ + frees(out)
            &&& r == freed
        }),
{
    let ghost before = views(caches@);
    let mut freed_pages: usize = 0;
    let mut i: usize = 0;
    proof {
        assert(before.take(0).len() == 0);
        assert(frees(Seq::<PageCache>::empty()) =~= Seq::empty());
    }
    while i < caches.len()
        invariant
            before == views(old(caches)@),
            grand_total(before) <= usize::MAX,
            i <= caches@.len() == before.len(),
            forall|j: int| 0 <= j < caches@.len() ==> (#[trigger] caches@[j])@.wf(),
            views(caches@) == shrunk(before.take(i as int), target_pages as int).0 + before.skip(
                i as int,
            ),
            shrunk(before.take(i as int), target_pages as int).0.len() == i,
            effects@ == old(effects)@ + frees(shrunk(before.take(i as int), target_pages as int).1),
            freed_pages == shrunk(before.take(i as int), target_pages as int).2,
        decreases caches@.len() - i,
    {
        let ghost now = caches@;
        proof {
            let n = i as int;
            let t = before.take(n + 1);
            assert(t.drop_last() =~= before.take(n));
            assert(t.last() == before[n]);
            assert(views(caches@)[n] == before[n]);
            lemma_shrunk_total(t, target_pages as int);
            lemma_shrunk_total(before.take(n), target_pages as int);
            lemma_grand_total_prefix(before, n + 1);
        }
        if !caches[i].in_memory() && caches[i].no_listeners() {
            let ghost done = effects@;
            freed_pages = reclaim_cache(&mut caches[i], target_pages, freed_pages, effects);
            proof {
                let out = shrunk(before.take(i as int), target_pages as int).1;
                let more = reclaimed(
                    before[i as int].pages,
                    target_pages - shrunk(before.take(i as int), target_pages as int).2,
                ).1;
                assert(frees(out) + frees(more) =~= frees(out + more));
            }
        }
        proof {
            let n = i as int;
            let next = shrunk(before.take(n + 1), target_pages as int).0;
            assert(next =~= shrunk(before.take(n), target_pages as int).0.push(caches@[n]@));
            assert forall|j: int| 0 <= j < caches@.len() implies views(caches@)[j] == (next
                + before.skip(n + 1))[j] by {
                if j != n {
                    assert(caches@[j] == now[j]);
                    assert(views(now)[j] == now[j]@);
                }
            }
            assert(views(caches@) =~= next + before.skip(n + 1));
        }
        i += 1;
    }
    proof {
        assert(before.take(i as int) =~= before);
        assert(views(caches@) =~= shrunk(before, target_pages as int).0);
    }
    freed_pages
}

/// What a list of caches amounts to.
pub open spec fn views(caches: Seq<CachedFileShared>) -> Seq<CacheView> {
    caches.map_values(|cache: CachedFileShared| cache@)
}

} // verus!
