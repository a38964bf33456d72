//! What a page cache keeps, in which order pages leave it, and who holds it.

use vstd::prelude::*;
use crate::effect::Effect;
use crate::fs::cache::CachedFileShared;
use crate::fs::cached_file::CachedFile;
use crate::fs::caches::{
    emptied, has_slot, law_listener_added_and_removed, slot_of, PageCaches,
};
use crate::fs::location::Location;
use crate::fs::page::PageCache;
use crate::fs::recency::{
    has_key, lemma_lookup_map, lemma_pushed, lemma_touched, lemma_without, page_map,
};
use crate::fs::transfer::mark_page;

verus! {

/// A page that is put into a cache is the one that is found for its number, and is
/// the last to leave. Every other page that was there is found as before, but for
/// the one that had to leave: the one that is next to leave, if the cache was full.
pub proof fn law_cache_keeps_what_was_put(
    c: &mut CachedFileShared,
    pn: u32,
    page: PageCache,
    out: Option<(u32, PageCache)>,
    d: &mut CachedFileShared,
    q: u32,
    found: Option<PageCache>,
    there: bool,
    e: &mut CachedFileShared,
    had: Option<PageCache>,
    f: &mut CachedFileShared,
    first: Option<(u32, PageCache)>,
    full: bool,
)
    requires
        c@.wf(),
        page.wf(),
        call_ensures(CachedFileShared::push, (c, pn, page), out),
        *d == *final(c),
        call_ensures(CachedFileShared::touch, (d, q), found),
        call_ensures(CachedFileShared::contains, (&*final(c), q), there),
        *e == *c,
        call_ensures(CachedFileShared::touch, (e, q), had),
        *f == *c,
        call_ensures(CachedFileShared::pop_lru, (f,), first),
        call_ensures(CachedFileShared::is_full, (&*old(c),), full),
    ensures
        there == found is Some,
        q == pn ==> found == Some(page),
        q != pn && !(out matches Some((x, _)) && x == q) ==> found == had,
        out matches Some((x, old_page)) ==> if x == pn {
            q == pn ==> had == Some(old_page)
        } else {
            &&& full
            &&& first == out
            &&& q == x ==> found is None && had == Some(old_page)
        },
        out is None ==> !full && (q == pn ==> had is None),
{
    let s = old(c)@.pages;
    let cap = old(c)@.cap;
    lemma_pushed(s, cap, pn, page);
    let after = final(c)@.pages;
    lemma_lookup_map(s, q);
    lemma_lookup_map(after, q);
    lemma_lookup_map(s, pn);
    if !has_key(s, pn) && s.len() == cap {
        crate::fs::recency::lemma_drop_last(s);
        crate::fs::recency::lemma_at(s, s.len() - 1);
        lemma_lookup_map(s, s.last().0);
    }
}

/// Using a page changes nothing but that it is the last to leave: the page that is
/// next to leave is another one, if there is one.
pub proof fn law_used_page_stays(
    c: &mut CachedFileShared,
    pn: u32,
    r: Option<PageCache>,
    d: &mut CachedFileShared,
    out: Option<(u32, PageCache)>,
    q: u32,
    before: bool,
    after: bool,
    n: usize,
    k: usize,
)
    requires
        c@.wf(),
        call_ensures(CachedFileShared::touch, (c, pn), r),
        *d == *final(c),
        call_ensures(CachedFileShared::pop_lru, (d,), out),
        call_ensures(CachedFileShared::contains, (&*old(c), q), before),
        call_ensures(CachedFileShared::contains, (&*final(c), q), after),
        call_ensures(CachedFileShared::len, (&*old(c),), n),
        call_ensures(CachedFileShared::len, (&*final(c),), k),
    ensures
        before == after,
        n == k,
        r is Some && n > 1 ==> (out matches Some((x, _)) && x != pn),
        n == 0 ==> out is None,
        n > 0 ==> out is Some,
{
    let s = old(c)@.pages;
    let t = final(c)@.pages;
    lemma_touched(s, pn);
    lemma_lookup_map(s, pn);
    assert(page_map(s).dom().contains(q) == page_map(t).dom().contains(q));
    if r is Some && n > 1 {
        assert(t[0].0 == pn);
        assert(t[0].0 != t[t.len() - 1].0);
    }
}

/// A page that is taken out of a cache is the one that was found for its number, and
/// none is found for it any more. The others are found as before.
pub proof fn law_cache_gives_what_it_kept(
    c: &mut CachedFileShared,
    pn: u32,
    r: Option<PageCache>,
    d: &mut CachedFileShared,
    q: u32,
    found: Option<PageCache>,
    e: &mut CachedFileShared,
    had: Option<PageCache>,
)
    requires
        c@.wf(),
        call_ensures(CachedFileShared::pop, (c, pn), r),
        *d == *final(c),
        call_ensures(CachedFileShared::touch, (d, q), found),
        *e == *c,
        call_ensures(CachedFileShared::touch, (e, q), had),
    ensures
        q == pn ==> r == had && found is None,
        q != pn ==> found == had,
{
    let s = old(c)@.pages;
    lemma_without(s, pn);
    lemma_lookup_map(s, q);
    lemma_lookup_map(s, pn);
    lemma_lookup_map(final(c)@.pages, q);
}

/// A new cache is empty, holds few pages of a file with a device and any number
/// otherwise, and nobody listens to it.
pub proof fn law_new_caches_are_empty(
    in_memory: bool,
    a: CachedFileShared,
    b: CachedFileShared,
    n: usize,
    k: usize,
    quiet: bool,
    memory: bool,
)
    requires
        call_ensures(CachedFileShared::new, (in_memory,), a),
        call_ensures(CachedFileShared::new_unbounded, (in_memory,), b),
        call_ensures(CachedFileShared::len, (&a,), n),
        call_ensures(CachedFileShared::len, (&b,), k),
        call_ensures(CachedFileShared::no_listeners, (&a,), quiet),
        call_ensures(CachedFileShared::in_memory, (&b,), memory),
    ensures
        n == 0 && k == 0 && quiet,
        memory == in_memory && a@.in_memory == in_memory,
        a@.cap == 256 && b@.cap == usize::MAX,
{
}

/// The cache of a place where none is noted is a new one, which the file that is
/// opened holds alone, unless it is in memory: then the place holds it too. Another
/// handle holds it as well, until it is released.
pub proof fn law_cache_is_held_by_its_files(
    c: &mut PageCaches,
    loc: Location,
    f: CachedFile,
    d: &mut PageCaches,
    g: CachedFile,
    e: &mut PageCaches,
    effects: &mut Vec<Effect>,
    once: bool,
    twice: bool,
    again: bool,
    same: bool,
)
    requires
        c@.wf(),
        c@.can_open(None),
        call_ensures(CachedFile::get_or_create, (c, loc, None), f),
        *d == *final(c),
        call_ensures(PageCaches::share, (d, &f), g),
        *e == *final(d),
        call_ensures(PageCaches::release, (e, &g, effects), ()),
        call_ensures(PageCaches::is_last, (&*final(c), &f), once),
        call_ensures(PageCaches::is_last, (&*final(d), &f), twice),
        call_ensures(PageCaches::is_last, (&*final(e), &f), again),
        call_ensures(CachedFile::ptr_eq, (&f, &g), same),
    ensures
        f.inner == loc,
        f.in_memory == loc.in_memory,
        once == !loc.in_memory,
        !twice,
        again == once,
        same,
        final(effects)@ == old(effects)@,
        final(e)@.caches == final(c)@.caches,
        final(c)@.caches.len() == old(c)@.caches.len() + 1,
        forall|i: int|
            0 <= i < old(c)@.caches.len() ==> #[trigger] final(c)@.caches[i] == old(c)@.caches[i],
        ({
            let new = final(c)@.caches.last();
            &&& new.pages.len() == 0
            &&& new.listeners.len() == 0
            &&& new.in_memory == loc.in_memory
            &&& new.cap == (if loc.in_memory {
                usize::MAX as nat
            } else {
                256
            })
        }),
{
    let v = old(c)@;
    let w = final(c)@;
    let n = v.slots.len() as int;
    assert(w.slots[n].id == f.shared);
    lemma_slot(w.slots, n, f.shared, v.next);
    assert(slot_of(w.slots, f.shared) == n);
    let x = final(d)@;
    assert(x.slots[n].id == f.shared);
    lemma_slot(x.slots, n, f.shared, v.next);
    let y = final(e)@;
    assert(y.slots[n].id == f.shared);
    lemma_slot(y.slots, n, f.shared, v.next);
}

/// A place where a cache is noted that somebody holds shares that cache, with the
/// pages that it has, and one more file holds it.
pub proof fn law_noted_cache_is_shared(
    c: &mut PageCaches,
    loc: Location,
    id: u64,
    f: CachedFile,
    i: int,
    last: bool,
)
    requires
        c@.wf(),
        0 <= i < c@.slots.len(),
        c@.slots[i].id == id,
        c@.slots[i].handles < usize::MAX,
        call_ensures(CachedFile::get_or_create, (c, loc, Some(id)), f),
        call_ensures(PageCaches::is_last, (&*final(c), &f), last),
    ensures
        f.shared == id,
        f.inner == loc,
        f.in_memory == loc.in_memory,
        final(c)@.caches == old(c)@.caches,
        final(c)@.slots.len() == old(c)@.slots.len(),
        final(c)@.slots[i].handles == old(c)@.slots[i].handles + 1,
        forall|j: int|
            0 <= j < old(c)@.slots.len() && j != i ==> #[trigger] final(c)@.slots[j] == old(
                c,
            )@.slots[j],
        old(c)@.slots[i].handles > 0 ==> !last,
{
    let v = old(c)@;
    assert(has_slot(v.slots, id));
    let k = slot_of(v.slots, id);
    assert(0 <= k < v.slots.len() && v.slots[k].id == id);
    assert(k == i);
    let w = final(c)@;
    assert(w.slots[i].id == id);
    assert(has_slot(w.slots, id));
    let x = slot_of(w.slots, id);
    assert(0 <= x < w.slots.len() && w.slots[x].id == id);
    if x != i {
        assert(w.slots[x] == v.slots[x]);
    }
}

/// A listener that is added hears with the others, and the handle by which it is
/// told from them comes back. Once it is removed everything is as before.
pub proof fn law_listeners_come_and_go(
    f: CachedFile,
    c: &mut CachedFileShared,
    handle: usize,
    r: usize,
    d: &mut CachedFileShared,
)
    requires
        !c@.listeners.contains(handle),
        call_ensures(CachedFile::add_evict_listener, (&f, c, handle), r),
        *d == *final(c),
        call_ensures(CachedFile::remove_evict_listener, (&f, d, handle), ()),
    ensures
        r == handle,
        final(c)@.listeners.len() == old(c)@.listeners.len() + 1,
        final(c)@.listeners.contains(handle),
        forall|i: int|
            0 <= i < old(c)@.listeners.len() ==> #[trigger] final(c)@.listeners[i] == old(
                c,
            )@.listeners[i],
        final(c)@.pages == old(c)@.pages,
        final(d)@ == old(c)@,
{
    let s = old(c)@.listeners;
    law_listener_added_and_removed(s, handle);
    assert(s.push(handle)[s.len() as int] == handle);
    assert(final(d)@.listeners == s);
}

/// The slot of a number that no other slot has.
proof fn lemma_slot(slots: Seq<crate::fs::caches::Slot>, n: int, id: u64, next: u64)
    requires
        0 <= n < slots.len(),
        slots[n].id == id,
        id == next,
        forall|i: int| 0 <= i < slots.len() && i != n ==> (#[trigger] slots[i]).id < next,
    ensures
        has_slot(slots, id),
        slot_of(slots, id) == n,
{
    let k = slot_of(slots, id);
    assert(0 <= k < slots.len() && slots[k].id == id);
}

proof fn lemma_emptied(pages: Seq<(u32, PageCache)>)
    ensures
        emptied(pages).len() == pages.len(),
        forall|i: int|
            0 <= i < pages.len() ==> #[trigger] emptied(pages)[pages.len() - 1 - i] == Effect::FreePage(
                pages[i].1,
            ),
    decreases pages.len(),
{
    if pages.len() > 0 {
        let d = pages.drop_last();
        lemma_emptied(d);
        let n = pages.len();
        let all = emptied(pages);
        assert(all == seq![Effect::FreePage(pages.last().1)] + emptied(d));
        assert forall|i: int| 0 <= i < n implies #[trigger] all[n - 1 - i] == Effect::FreePage(
            pages[i].1,
        ) by {
            if i < n - 1 {
                assert(emptied(d)[d.len() - 1 - i] == Effect::FreePage(d[i].1));
                assert(all[n - 1 - i] == emptied(d)[n - 2 - i]);
            }
        }
    }
}

/// When the last file that holds a cache goes, the cache goes, and the memory of each
/// of its pages is given back. The other caches stay. As long as another holds it,
/// nothing is given back.
pub proof fn law_cache_goes_with_its_last_file(
    c: &mut PageCaches,
    f: CachedFile,
    effects: &mut Vec<Effect>,
    last: bool,
    i: int,
)
    requires
        c@.wf(),
        0 <= i < c@.slots.len(),
        c@.slots[i].id == f.shared,
        c@.slots[i].handles > 0,
        call_ensures(PageCaches::is_last, (&*old(c), &f), last),
        call_ensures(PageCaches::release, (c, &f, effects), ()),
    ensures
        last <==> old(c)@.slots[i].handles == 1 && !old(c)@.slots[i].pinned,
        !last ==> final(effects)@ == old(effects)@ && final(c)@.caches == old(c)@.caches,
        last ==> {
            let pages = old(c)@.caches[i].pages;
            let n = old(effects)@.len();
            &&& final(c)@.caches == old(c)@.caches.remove(i)
            &&& !has_slot(final(c)@.slots, f.shared)
            &&& final(effects)@.len() == n + pages.len()
            &&& forall|k: int|
                0 <= k < pages.len() ==> final(effects)@.contains(
                    Effect::FreePage((#[trigger] pages[k]).1),
                )
        },
{
    let v = old(c)@;
    let k = slot_of(v.slots, f.shared);
    assert(has_slot(v.slots, f.shared));
    assert(0 <= k < v.slots.len() && v.slots[k].id == f.shared);
    assert(k == i);
    if last {
        let pages = v.caches[i].pages;
        lemma_emptied(pages);
        let w = final(c)@;
        assert forall|j: int| 0 <= j < w.slots.len() implies (#[trigger] w.slots[j]).id != f.shared by {
            let x = if j < i {
                j
            } else {
                j + 1
            };
            assert(w.slots[j] == v.slots[x]);
        }
        let n = old(effects)@.len();
        assert forall|k: int| 0 <= k < pages.len() implies final(effects)@.contains(
            Effect::FreePage((#[trigger] pages[k]).1),
        ) by {
            let at = pages.len() - 1 - k;
            assert(emptied(pages)[at] == Effect::FreePage(pages[k].1));
            assert(final(effects)@[n + at] == emptied(pages)[at]);
        }
    }
}

/// When the place of a file in memory lets its cache go, the cache stays as it is for
/// the files that hold it. If none does, it goes and the memory of each of its pages is
/// given back. The other caches stay.
pub proof fn law_unpinned_cache_stays_for_its_files(
    c: &mut PageCaches,
    id: u64,
    effects: &mut Vec<Effect>,
    i: int,
)
    requires
        c@.wf(),
        0 <= i < c@.slots.len(),
        c@.slots[i].id == id,
        call_ensures(PageCaches::unpin, (c, id, effects), ()),
    ensures
        old(c)@.slots[i].handles > 0 ==> {
            &&& final(effects)@ == old(effects)@
            &&& final(c)@.caches == old(c)@.caches
            &&& !final(c)@.slots[i].pinned
            &&& final(c)@.slots[i].id == id
            &&& final(c)@.slots[i].handles == old(c)@.slots[i].handles
        },
        old(c)@.slots[i].handles == 0 ==> {
            let pages = old(c)@.caches[i].pages;
            let n = old(effects)@.len();
            &&& final(c)@.caches == old(c)@.caches.remove(i)
            &&& final(effects)@.len() == n + pages.len()
            &&& forall|k: int|
                0 <= k < pages.len() ==> final(effects)@.contains(
                    Effect::FreePage((#[trigger] pages[k]).1),
                )
        },
{
    let v = old(c)@;
    let k = slot_of(v.slots, id);
    assert(has_slot(v.slots, id));
    assert(0 <= k < v.slots.len() && v.slots[k].id == id);
    assert(k == i);
    if v.slots[i].handles == 0 {
        let pages = v.caches[i].pages;
        lemma_emptied(pages);
        let n = old(effects)@.len();
        assert forall|k: int| 0 <= k < pages.len() implies final(effects)@.contains(
            Effect::FreePage((#[trigger] pages[k]).1),
        ) by {
            let at = pages.len() - 1 - k;
            assert(emptied(pages)[at] == Effect::FreePage(pages[k].1));
            assert(final(effects)@[n + at] == emptied(pages)[at]);
        }
    }
}

/// A page that is marked as written is dirty and stays in its memory. No other page
/// changes, and none comes or goes.
pub proof fn law_marked_page_is_dirty(
    c: &mut CachedFileShared,
    pn: u32,
    q: u32,
    d: &mut CachedFileShared,
    found: Option<PageCache>,
    e: &mut CachedFileShared,
    had: Option<PageCache>,
)
    requires
        c@.wf(),
        call_ensures(mark_page, (c, pn), ()),
        *d == *final(c),
        call_ensures(CachedFileShared::touch, (d, q), found),
        *e == *c,
        call_ensures(CachedFileShared::touch, (e, q), had),
    ensures
        q != pn || had is None ==> found == had,
        q == pn ==> (had matches Some(page) ==> (found matches Some(now) && now.dirty && now.paddr
            == page.paddr && now.size == page.size)),
{
    let s = old(c)@.pages;
    lemma_lookup_map(s, pn);
    lemma_lookup_map(s, q);
    lemma_lookup_map(final(c)@.pages, q);
    if has_key(s, pn) {
        crate::fs::recency::lemma_placed(
            s,
            pn,
            PageCache { dirty: true, ..crate::fs::recency::lookup(s, pn).unwrap() },
        );
    }
}

} // verus!
