//! The recency-ordered map of cached pages.

use vstd::prelude::*;
use core::num::NonZeroUsize;
use lru::LruCache;
use crate::fs::page::PageCache;

verus! {

/// `lru::LruCache`, as it stands.
#[verifier::external_type_specification]
#[verifier::external_body]
#[verifier::reject_recursive_types(K)]
#[verifier::reject_recursive_types(V)]
#[verifier::reject_recursive_types(S)]
pub struct ExLruCache<K, V, S>(LruCache<K, V, S>);

/// The hasher that `lru::LruCache` uses unless told otherwise.
#[verifier::external_type_specification]
#[verifier::external_body]
pub struct ExDefaultHasher(lru::DefaultHasher);

/// The entries of a cache, the most recently used first.
pub uninterp spec fn lru_entries(cache: LruCache<u32, PageCache>) -> Seq<(u32, PageCache)>;

/// The number of entries that a cache may hold.
pub uninterp spec fn lru_cap(cache: LruCache<u32, PageCache>) -> nat;

/// Whether a list of entries has a page for `pn`.
pub open spec fn has_key(s: Seq<(u32, PageCache)>, pn: u32) -> bool {
    exists|i: int| 0 <= i < s.len() && (#[trigger] s[i]).0 == pn
}

/// Where the page for `pn` stands.
pub open spec fn pos(s: Seq<(u32, PageCache)>, pn: u32) -> int {
    choose|i: int| 0 <= i < s.len() && (#[trigger] s[i]).0 == pn
}

/// The page for `pn`.
pub open spec fn lookup(s: Seq<(u32, PageCache)>, pn: u32) -> Option<PageCache> {
    if has_key(s, pn) {
        Some(s[pos(s, pn)].1)
    } else {
        None
    }
}

/// The entries after `pn` was taken out.
pub open spec fn without(s: Seq<(u32, PageCache)>, pn: u32) -> Seq<(u32, PageCache)> {
    if has_key(s, pn) {
        s.remove(pos(s, pn))
    } else {
        s
    }
}

/// The entries after `page` was put for `pn`, with room to spare.
pub open spec fn placed(s: Seq<(u32, PageCache)>, pn: u32, page: PageCache) -> Seq<
    (u32, PageCache),
> {
    seq![(pn, page)] + without(s, pn)
}

/// The entries after the page for `pn`, if there is one, was used.
pub open spec fn touched(s: Seq<(u32, PageCache)>, pn: u32) -> Seq<(u32, PageCache)> {
    match lookup(s, pn) {
        Some(page) => placed(s, pn, page),
        None => s,
    }
}

/// The entries after `page` was put for `pn` in a list of at most `cap`: the
/// least recently used entry leaves where there is no room.
pub open spec fn pushed(s: Seq<(u32, PageCache)>, cap: nat, pn: u32, page: PageCache) -> Seq<
    (u32, PageCache),
> {
    if !has_key(s, pn) && s.len() == cap {
        seq![(pn, page)] + s.drop_last()
    } else {
        placed(s, pn, page)
    }
}

/// The entry that [`pushed`] takes out.
pub open spec fn displaced(s: Seq<(u32, PageCache)>, cap: nat, pn: u32) -> Option<(u32, PageCache)> {
    if has_key(s, pn) {
        Some((pn, s[pos(s, pn)].1))
    } else if s.len() == cap {
        Some(s.last())
    } else {
        None
    }
}

/// Whether no page number occurs twice.
pub open spec fn distinct(s: Seq<(u32, PageCache)>) -> bool {
    forall|i: int, j: int| 0 <= i < j < s.len() ==> (#[trigger] s[i]).0 != (#[trigger] s[j]).0
}

/// The pages by their numbers.
pub open spec fn page_map(s: Seq<(u32, PageCache)>) -> Map<u32, PageCache> {
    Map::new(|pn: u32| has_key(s, pn), |pn: u32| s[pos(s, pn)].1)
}

/// `LruCache::new` makes an empty cache with the given limit.
#[verifier::external_body]
pub(crate) fn lru_new(cap: usize) -> (r: LruCache<u32, PageCache>)
    requires
        0 < cap <= 65536,
    ensures
        lru_entries(r) == Seq::<(u32, PageCache)>::empty(),
        lru_cap(r) == cap as nat,
{
    LruCache::new(NonZeroUsize::new(cap).unwrap())
}

/// `LruCache::unbounded` makes an empty cache whose limit is the greatest
/// number there is.
#[verifier::external_body]
pub(crate) fn lru_unbounded() -> (r: LruCache<u32, PageCache>)
    ensures
        lru_entries(r) == Seq::<(u32, PageCache)>::empty(),
        lru_cap(r) == usize::MAX as nat,
{
    LruCache::unbounded()
}

/// `LruCache::len` is the number of entries.
#[verifier::external_body]
pub(crate) fn lru_len(cache: &LruCache<u32, PageCache>) -> (r: usize)
    ensures
        r == lru_entries(*cache).len(),
{
    cache.len()
}

/// `LruCache::cap` is the limit of the cache.
#[verifier::external_body]
pub(crate) fn lru_limit(cache: &LruCache<u32, PageCache>) -> (r: usize)
    ensures
        r == lru_cap(*cache),
{
    cache.cap().get()
}

/// `LruCache::contains` tells whether there is an entry for a key, and uses no
/// entry.
#[verifier::external_body]
pub(crate) fn lru_contains(cache: &LruCache<u32, PageCache>, pn: u32) -> (r: bool)
    ensures
        r == has_key(lru_entries(*cache), pn),
{
    cache.contains(&pn)
}

/// `LruCache::get_mut` makes the entry for a key the most recently used one and
/// lends its value.
#[verifier::external_body]
pub(crate) fn lru_get_mut<'a>(cache: &'a mut LruCache<u32, PageCache>, pn: u32) -> (r: Option<
    &'a mut PageCache,
>)
    ensures
        lru_cap(*final(cache)) == lru_cap(*old(cache)),
        match r {
            Some(page) => {
                &&& lookup(lru_entries(*old(cache)), pn) == Some(*page)
                &&& lru_entries(*final(cache)) == placed(
                    lru_entries(*old(cache)),
                    pn,
                    *final(page),
                )
            },
            None => {
                &&& !has_key(lru_entries(*old(cache)), pn)
                &&& lru_entries(*final(cache)) == lru_entries(*old(cache))
            },
        },
{
    cache.get_mut(&pn)
}

/// `LruCache::push` puts a value for a key as the most recently used entry. It
/// returns the entry that had the key before, else the least recently used
/// entry where that had to leave because the cache was full.
#[verifier::external_body]
pub(crate) fn lru_push(cache: &mut LruCache<u32, PageCache>, pn: u32, page: PageCache) -> (r: Option<
    (u32, PageCache),
>)
    ensures
        lru_cap(*final(cache)) == lru_cap(*old(cache)),
        lru_entries(*final(cache)) == pushed(
            lru_entries(*old(cache)),
            lru_cap(*old(cache)),
            pn,
            page,
        ),
        r == displaced(lru_entries(*old(cache)), lru_cap(*old(cache)), pn),
{
    cache.push(pn, page)
}

/// `LruCache::pop` takes the entry for a key out.
#[verifier::external_body]
pub(crate) fn lru_pop(cache: &mut LruCache<u32, PageCache>, pn: u32) -> (r: Option<PageCache>)
    ensures
        lru_cap(*final(cache)) == lru_cap(*old(cache)),
        lru_entries(*final(cache)) == without(lru_entries(*old(cache)), pn),
        r == lookup(lru_entries(*old(cache)), pn),
{
    cache.pop(&pn)
}

/// `LruCache::pop_lru` takes the least recently used entry out.
#[verifier::external_body]
pub(crate) fn lru_pop_lru(cache: &mut LruCache<u32, PageCache>) -> (r: Option<(u32, PageCache)>)
    ensures
        lru_cap(*final(cache)) == lru_cap(*old(cache)),
        r == (if lru_entries(*old(cache)).len() == 0 {
            None
        } else {
            Some(lru_entries(*old(cache)).last())
        }),
        lru_entries(*final(cache)) == (if lru_entries(*old(cache)).len() == 0 {
            lru_entries(*old(cache))
        } else {
            lru_entries(*old(cache)).drop_last()
        }),
{
    cache.pop_lru()
}

/// `LruCache::iter` visits the entries, the most recently used first, and uses
/// none.
#[verifier::external_body]
pub(crate) fn lru_keys(cache: &LruCache<u32, PageCache>) -> (r: Vec<u32>)
    ensures
        r@ == lru_entries(*cache).map_values(|e: (u32, PageCache)| e.0),
{
    cache.iter().map(|(pn, _)| *pn).collect()
}

/// Where a page number occurs, it occurs at its position.
pub proof fn lemma_pos(s: Seq<(u32, PageCache)>, pn: u32)
    requires
        has_key(s, pn),
    ensures
        0 <= pos(s, pn) < s.len(),
        s[pos(s, pn)].0 == pn,
{
}

/// In a list without repetitions the position of an entry is its index.
pub proof fn lemma_at(s: Seq<(u32, PageCache)>, i: int)
    requires
        distinct(s),
        0 <= i < s.len(),
    ensures
        has_key(s, s[i].0),
        pos(s, s[i].0) == i,
        lookup(s, s[i].0) == Some(s[i].1),
{
    lemma_pos(s, s[i].0);
    let j = pos(s, s[i].0);
    if j < i {
        assert(s[j].0 != s[i].0);
    } else if i < j {
        assert(s[i].0 != s[j].0);
    }
}

/// Looking up in a list is looking up in its map.
pub proof fn lemma_lookup_map(s: Seq<(u32, PageCache)>, pn: u32)
    ensures
        lookup(s, pn) == (if page_map(s).dom().contains(pn) {
            Some(page_map(s)[pn])
        } else {
            None
        }),
{
}

/// Taking a page out takes it out of the map and out of nothing else.
pub proof fn lemma_without(s: Seq<(u32, PageCache)>, pn: u32)
    requires
        distinct(s),
    ensures
        distinct(without(s, pn)),
        !has_key(without(s, pn), pn),
        page_map(without(s, pn)) == page_map(s).remove(pn),
        without(s, pn).len() == s.len() - (if has_key(s, pn) { 1int } else { 0 }),
{
    let t = without(s, pn);
    if has_key(s, pn) {
        lemma_pos(s, pn);
        let p = pos(s, pn);
        assert forall|i: int, j: int| 0 <= i < j < t.len() implies (#[trigger] t[i]).0 != (
        #[trigger] t[j]).0 by {
            let a = if i < p { i } else { i + 1 };
            let b = if j < p { j } else { j + 1 };
            assert(t[i] == s[a] && t[j] == s[b]);
        }
        assert forall|i: int| 0 <= i < t.len() implies (#[trigger] t[i]).0 != pn by {
            let a = if i < p { i } else { i + 1 };
            assert(t[i] == s[a]);
            lemma_at(s, a);
        }
        assert forall|k: u32| k != pn implies has_key(t, k) == has_key(s, k) && (has_key(s, k)
            ==> t[pos(t, k)].1 == s[pos(s, k)].1) by {
            if has_key(s, k) {
                lemma_pos(s, k);
                let a = pos(s, k);
                let i = if a < p { a } else { a - 1 };
                assert(t[i] == s[a]);
                assert(t[i].0 == k);
                assert(has_key(t, k));
                lemma_at(t, i);
            }
            if has_key(t, k) {
                lemma_pos(t, k);
                let i = pos(t, k);
                let a = if i < p { i } else { i + 1 };
                assert(t[i] == s[a]);
                assert(s[a].0 == k);
            }
        }
        assert(page_map(t) =~= page_map(s).remove(pn));
    } else {
        assert(page_map(t) =~= page_map(s).remove(pn));
    }
}

/// Putting an entry in front of a list that lacks its number.
pub proof fn lemma_front(s: Seq<(u32, PageCache)>, pn: u32, page: PageCache)
    requires
        distinct(s),
        !has_key(s, pn),
    ensures
        distinct(seq![(pn, page)] + s),
        page_map(seq![(pn, page)] + s) == page_map(s).insert(pn, page),
{
    let t = seq![(pn, page)] + s;
    assert forall|i: int, j: int| 0 <= i < j < t.len() implies (#[trigger] t[i]).0 != (#[trigger] t[j]).0 by {
        assert(t[j] == s[j - 1]);
        if i == 0 {
            assert(t[i].0 == pn);
        } else {
            assert(t[i] == s[i - 1]);
        }
    }
    lemma_at(t, 0);
    assert forall|k: u32| k != pn implies has_key(t, k) == has_key(s, k) && (has_key(s, k) ==> t[pos(
        t,
        k,
    )].1 == s[pos(s, k)].1) by {
        if has_key(s, k) {
            lemma_pos(s, k);
            assert(t[pos(s, k) + 1] == s[pos(s, k)]);
            lemma_at(t, pos(s, k) + 1);
        }
        if has_key(t, k) {
            lemma_pos(t, k);
            assert(pos(t, k) != 0);
            assert(s[pos(t, k) - 1] == t[pos(t, k)]);
        }
    }
    assert(t[0] == (pn, page));
    assert(has_key(t, pn));
    assert(page_map(t) =~= page_map(s).insert(pn, page));
}

/// Putting a page where there is room changes the map for its number alone.
pub proof fn lemma_placed(s: Seq<(u32, PageCache)>, pn: u32, page: PageCache)
    requires
        distinct(s),
    ensures
        distinct(placed(s, pn, page)),
        page_map(placed(s, pn, page)) == page_map(s).insert(pn, page),
        placed(s, pn, page).len() == s.len() + (if has_key(s, pn) { 0int } else { 1 }),
{
    lemma_without(s, pn);
    lemma_front(without(s, pn), pn, page);
    assert(page_map(s).remove(pn).insert(pn, page) =~= page_map(s).insert(pn, page));
}

/// Using a page changes the order of the entries alone.
pub proof fn lemma_touched(s: Seq<(u32, PageCache)>, pn: u32)
    requires
        distinct(s),
    ensures
        distinct(touched(s, pn)),
        page_map(touched(s, pn)) == page_map(s),
        touched(s, pn).len() == s.len(),
{
    if has_key(s, pn) {
        let page = s[pos(s, pn)].1;
        lemma_placed(s, pn, page);
        assert(page_map(s).insert(pn, page) =~= page_map(s));
    }
}

/// The least recently used entry leaves the map and no other.
pub proof fn lemma_drop_last(s: Seq<(u32, PageCache)>)
    requires
        distinct(s),
        s.len() > 0,
    ensures
        distinct(s.drop_last()),
        page_map(s.drop_last()) == page_map(s).remove(s.last().0),
        page_map(s).dom().contains(s.last().0),
        page_map(s)[s.last().0] == s.last().1,
{
    lemma_at(s, s.len() - 1);
    assert(s.drop_last() =~= without(s, s.last().0));
    lemma_without(s, s.last().0);
}

/// Putting a page keeps the list free of repetitions and within its limit.
pub proof fn lemma_pushed(s: Seq<(u32, PageCache)>, cap: nat, pn: u32, page: PageCache)
    requires
        distinct(s),
        s.len() <= cap,
        0 < cap,
    ensures
        distinct(pushed(s, cap, pn, page)),
        pushed(s, cap, pn, page).len() <= cap,
        page_map(pushed(s, cap, pn, page)) == (if !has_key(s, pn) && s.len() == cap {
            page_map(s).remove(s.last().0).insert(pn, page)
        } else {
            page_map(s).insert(pn, page)
        }),
{
    if !has_key(s, pn) && s.len() == cap {
        lemma_drop_last(s);
        assert(!page_map(s.drop_last()).dom().contains(pn));
        lemma_front(s.drop_last(), pn, page);
    } else {
        lemma_placed(s, pn, page);
        if has_key(s, pn) {
            lemma_pos(s, pn);
        }
    }
}

} // verus!
