//! What giving pages up keeps.

use vstd::prelude::*;
use vstd::multiset::Multiset;
use vstd::seq_lib::lemma_multiset_commutative;
use crate::effect::Effect;
use crate::fs::cache::{CacheView, CachedFileShared};
use crate::fs::caches::PageCaches;
use crate::fs::fetch::freed;
use crate::fs::fetch_law::lemma_clean_leaves;
use crate::fs::page::PageCache;
use crate::fs::reclaim::{
    frees, given_up, last_clean, lemma_last_clean, reclaimed, shrink_page_cache, shrunk, small_pages,
    spare, views,
};
use crate::fs::recency::{distinct, has_key, lemma_at, page_map, pos};
use crate::fs::transfer_law::lemma_freed;
use crate::fs::world::{coherent, lemma_performed_concat, lemma_performed_one, World};

verus! {

/// The number of small pages in a list of pages.
pub open spec fn small_total(pages: Seq<PageCache>) -> nat
    decreases pages.len(),
{
    if pages.len() == 0 {
        0
    } else {
        (pages[0].size as int / 4096) as nat + small_total(pages.skip(1))
    }
}

/// Whether one of the pages is clean.
pub open spec fn some_clean(s: Seq<(u32, PageCache)>) -> bool {
    exists|i: int| 0 <= i < s.len() && !(#[trigger] s[i]).1.dirty
}

/// The pages of a cache.
pub open spec fn held(s: Seq<(u32, PageCache)>) -> Multiset<PageCache> {
    s.map_values(|entry: (u32, PageCache)| entry.1).to_multiset()
}

/// The pages of all caches together.
pub open spec fn all_held(caches: Seq<CacheView>) -> Multiset<PageCache>
    decreases caches.len(),
{
    if caches.len() == 0 {
        Multiset::empty()
    } else {
        all_held(caches.drop_last()).add(held(caches.last().pages))
    }
}

proof fn lemma_held_concat(a: Seq<(u32, PageCache)>, b: Seq<(u32, PageCache)>)
    ensures
        held(a + b) == held(a).add(held(b)),
{
    let f = |entry: (u32, PageCache)| entry.1;
    assert((a + b).map_values(f) =~= a.map_values(f) + b.map_values(f));
    lemma_multiset_commutative(a.map_values(f), b.map_values(f));
}

/// The page that is given up is missed, and no other.
proof fn lemma_given_up_held(s: Seq<(u32, PageCache)>)
    requires
        0 <= last_clean(s) < s.len(),
    ensures
        held(s) == held(given_up(s)).insert(s[last_clean(s)].1),
{
    let q = last_clean(s);
    let f = |entry: (u32, PageCache)| entry.1;
    let one = seq![s[q]];
    lemma_held_concat(s.skip(q + 1), s.take(q));
    lemma_held_concat(s.take(q) + one, s.skip(q + 1));
    lemma_held_concat(s.take(q), one);
    assert(s =~= s.take(q) + one + s.skip(q + 1));
    assert(one.map_values(f) =~= seq![s[q].1]);
    assert(seq![s[q].1] =~= Seq::empty().push(s[q].1));
    broadcast use vstd::seq_lib::group_to_multiset_ensures;

    assert(held(one) =~= Multiset::empty().insert(s[q].1));
    assert(held(s) =~= held(given_up(s)).insert(s[q].1));
}

proof fn lemma_given_up(s: Seq<(u32, PageCache)>)
    requires
        last_clean(s) >= 0,
    ensures
        given_up(s).len() == s.len() - 1,
        forall|i: int|
            0 <= i < s.len() && i != last_clean(s) ==> given_up(s).contains(#[trigger] s[i]),
        forall|i: int|
            0 <= i < given_up(s).len() ==> s.contains(#[trigger] given_up(s)[i]),
        distinct(s) ==> distinct(given_up(s)),
        distinct(s) ==> page_map(given_up(s)) == page_map(s).remove(s[last_clean(s)].0),
{
    lemma_last_clean(s);
    let q = last_clean(s);
    let g = given_up(s);
    let n = s.len() as int;
    assert forall|i: int| 0 <= i < g.len() implies #[trigger] g[i] == s[if i < n - q - 1 {
        q + 1 + i
    } else {
        i - (n - q - 1)
    }] by {}
    assert forall|i: int| 0 <= i < s.len() && i != q implies g.contains(#[trigger] s[i]) by {
        let j = if i > q {
            i - q - 1
        } else {
            i + (n - q - 1)
        };
        assert(g[j] == s[i]);
    }
    assert forall|i: int| 0 <= i < g.len() implies s.contains(#[trigger] g[i]) by {
        let j = if i < n - q - 1 {
            q + 1 + i
        } else {
            i - (n - q - 1)
        };
        assert(g[i] == s[j]);
    }
    if distinct(s) {
        assert forall|i: int, j: int| 0 <= i < j < g.len() implies (#[trigger] g[i]).0 != (
        #[trigger] g[j]).0 by {
            let a = if i < n - q - 1 {
                q + 1 + i
            } else {
                i - (n - q - 1)
            };
            let b = if j < n - q - 1 {
                q + 1 + j
            } else {
                j - (n - q - 1)
            };
            assert(g[i] == s[a] && g[j] == s[b]);
            if a < b {
                assert(s[a].0 != s[b].0);
            } else {
                assert(s[b].0 != s[a].0);
            }
        }
        let k = s[q].0;
        lemma_at(s, q);
        assert forall|p: u32| has_key(g, p) == (has_key(s, p) && p != k) && (has_key(g, p) ==> g[pos(
            g,
            p,
        )].1 == s[pos(s, p)].1) by {
            if has_key(g, p) {
                let i = pos(g, p);
                assert(s.contains(g[i]));
                let j = choose|j: int| 0 <= j < s.len() && s[j] == g[i];
                lemma_at(s, j);
                assert(s[j].0 == p);
                if p == k {
                    assert(j == q);
                    let a = if i < n - q - 1 {
                        q + 1 + i
                    } else {
                        i - (n - q - 1)
                    };
                    assert(g[i] == s[a]);
                    lemma_at(s, a);
                }
            }
            if has_key(s, p) && p != k {
                let j = pos(s, p);
                assert(s[j].0 == p);
                assert(g.contains(s[j]));
                let i = choose|i: int| 0 <= i < g.len() && g[i] == s[j];
                assert(g[i].0 == p);
                lemma_at(g, i);
            }
        }
        assert(page_map(g) =~= page_map(s).remove(k));
    }
}

/// What is given up of one cache: only clean pages, as many small pages as is
/// said, and no more than needed, the least recently used first; every other page stays, and what stays and what
/// is given up are together the pages that were there. It ends only when enough is
/// free or no page is clean.
pub proof fn law_reclaim(s: Seq<(u32, PageCache)>, need: int)
    ensures
        ({
            let (pages, out, n) = reclaimed(s, need);
            &&& forall|i: int| 0 <= i < out.len() ==> !(#[trigger] out[i]).dirty
            &&& n == small_total(out)
            &&& n >= need || !some_clean(pages)
            &&& out.len() > 0 ==> small_total(out.drop_last()) < need
            &&& forall|i: int| 0 <= i < s.len() && (#[trigger] s[i]).1.dirty ==> pages.contains(s[i])
            &&& forall|i: int| 0 <= i < pages.len() ==> s.contains(#[trigger] pages[i])
            &&& pages.len() + out.len() == s.len()
            &&& held(s) == held(pages).add(out.to_multiset())
            &&& distinct(s) ==> forall|i: int, j: int|
                #![trigger s[i], s[j]]
                0 <= i < j < s.len() && !s[i].1.dirty && !s[j].1.dirty && pages.contains(s[j])
                    ==> pages.contains(s[i])
        }),
    decreases s.len(),
{
    lemma_last_clean(s);
    if need <= 0 || last_clean(s) < 0 || s.len() == 0 {
        broadcast use vstd::seq_lib::group_to_multiset_ensures;

        assert(Seq::<PageCache>::empty().to_multiset() =~= Multiset::empty());
        assert(held(s) =~= held(s).add(Multiset::empty()));
    } else {
        lemma_given_up(s);
        lemma_given_up_held(s);
        let page = s[last_clean(s)].1;
        let g = given_up(s);
        let rest = need - small_pages(page);
        law_reclaim(g, rest);
        let (pages, more, n) = reclaimed(g, rest);
        let out = seq![page] + more;
        assert(out.skip(1) =~= more);
        assert(held(s) == held(pages).add(out.to_multiset())) by {
            lemma_multiset_commutative(seq![page], more);
            assert(seq![page] =~= Seq::empty().push(page));
            broadcast use vstd::seq_lib::group_to_multiset_ensures;

            assert(held(s) =~= held(pages).add(out.to_multiset()));
        }
        assert forall|i: int| 0 <= i < out.len() implies !(#[trigger] out[i]).dirty by {
            if i > 0 {
                assert(out[i] == more[i - 1]);
            }
        }
        if more.len() > 0 {
            assert(out.drop_last() =~= seq![page] + more.drop_last());
            assert(out.drop_last().skip(1) =~= more.drop_last());
        } else {
            assert(out.drop_last() =~= Seq::empty());
        }
        assert forall|i: int| 0 <= i < s.len() && (#[trigger] s[i]).1.dirty implies pages.contains(
            s[i],
        ) by {
            assert(g.contains(s[i]));
            let j = choose|j: int| 0 <= j < g.len() && g[j] == s[i];
            assert(pages.contains(g[j]));
        }
        assert forall|i: int| 0 <= i < pages.len() implies s.contains(#[trigger] pages[i]) by {
            assert(g.contains(pages[i]));
            let j = choose|j: int| 0 <= j < g.len() && g[j] == pages[i];
            assert(s.contains(g[j]));
        }
        if distinct(s) {
            let q = last_clean(s);
            let n = s.len() as int;
            assert forall|i: int, j: int|
                #![trigger s[i], s[j]]
                0 <= i < j < s.len() && !s[i].1.dirty && !s[j].1.dirty && pages.contains(s[j]) implies pages.contains(
            s[i]) by {
                if j == q {
                    let x = choose|x: int| 0 <= x < pages.len() && pages[x] == s[j];
                    assert(g.contains(pages[x]));
                    let y = choose|y: int| 0 <= y < g.len() && g[y] == s[q];
                    let z = if y < n - q - 1 {
                        q + 1 + y
                    } else {
                        y - (n - q - 1)
                    };
                    assert(g[y] == s[z]);
                    if z < q {
                        assert(s[z].0 != s[q].0);
                    } else {
                        assert(s[q].0 != s[z].0);
                    }
                } else if j < q {
                    assert(g[i + (n - q - 1)] == s[i]);
                    assert(g[j + (n - q - 1)] == s[j]);
                } else {
                    assert(s[j].1.dirty);
                }
            }
        }
    }
}

proof fn lemma_small_total_concat(a: Seq<PageCache>, b: Seq<PageCache>)
    ensures
        small_total(a + b) == small_total(a) + small_total(b),
    decreases a.len(),
{
    if a.len() == 0 {
        assert(a + b =~= b);
    } else {
        assert((a + b).skip(1) =~= a.skip(1) + b);
        lemma_small_total_concat(a.skip(1), b);
    }
}

/// Whether the pages `left` are among the pages `s`, with all the dirty ones.
pub open spec fn left_of(left: Seq<(u32, PageCache)>, s: Seq<(u32, PageCache)>) -> bool {
    &&& forall|i: int| 0 <= i < s.len() && (#[trigger] s[i]).1.dirty ==> left.contains(s[i])
    &&& forall|i: int| 0 <= i < left.len() ==> s.contains(#[trigger] left[i])
    &&& held(left).subset_of(held(s))
}

/// What is given up of all caches: only clean pages, no more than needed, and none
/// of a file without a device or with a listener; the number that is said is that of the small
/// pages given up. What is left in a cache was in it, all its dirty pages among
/// it, and the pages that are left and those that are given up are together the
/// pages that were there. It ends only when enough is free or no spare cache has a
/// clean page left.
pub proof fn law_shrink(caches: Seq<CacheView>, need: int)
    ensures
        ({
            let (left, out, freed) = shrunk(caches, need);
            &&& left.len() == caches.len()
            &&& forall|i: int| 0 <= i < out.len() ==> !(#[trigger] out[i]).dirty
            &&& freed == small_total(out)
            &&& out.len() > 0 ==> small_total(out.drop_last()) < need
            &&& forall|i: int|
                0 <= i < caches.len() ==> if spare(#[trigger] caches[i]) {
                    left[i] == caches[i].with_pages(left[i].pages)
                } else {
                    left[i] == caches[i]
                }
            &&& forall|i: int|
                0 <= i < caches.len() ==> #[trigger] left_of(left[i].pages, caches[i].pages)
            &&& all_held(caches) == all_held(left).add(out.to_multiset())
            &&& freed >= need || forall|i: int|
                0 <= i < caches.len() && spare(#[trigger] caches[i]) ==> !some_clean(left[i].pages)
        }),
    decreases caches.len(),
{
    if caches.len() > 0 {
        law_shrink(caches.drop_last(), need);
        let (before, out, n) = shrunk(caches.drop_last(), need);
        let cache = caches.last();
        let (left, all, freed) = shrunk(caches, need);
        assert(left.drop_last() =~= before);
        assert(left_of(cache.pages, cache.pages));
        if spare(cache) {
            law_reclaim(cache.pages, need - n);
            let (pages, more, k) = reclaimed(cache.pages, need - n);
            lemma_small_total_concat(out, more);
            assert(left_of(pages, cache.pages));
            if more.len() > 0 {
                assert(all.drop_last() =~= out + more.drop_last());
                lemma_small_total_concat(out, more.drop_last());
            } else {
                assert(all =~= out);
            }
            lemma_multiset_commutative(out, more);
            assert(all_held(caches) =~= all_held(left).add(all.to_multiset()));
            assert forall|i: int| 0 <= i < all.len() implies !(#[trigger] all[i]).dirty by {
                if i < out.len() {
                    assert(all[i] == out[i]);
                } else {
                    assert(all[i] == more[i - out.len()]);
                }
            }
        }
        assert(all_held(caches) =~= all_held(left).add(all.to_multiset()));
        assert forall|i: int| 0 <= i < caches.len() implies #[trigger] left_of(
            left[i].pages,
            caches[i].pages,
        ) by {
            if i < caches.len() - 1 {
                assert(caches.drop_last()[i] == caches[i]);
                assert(left[i] == before[i]);
            }
        }
        assert forall|i: int| 0 <= i < caches.len() implies if spare(#[trigger] caches[i]) {
            left[i] == caches[i].with_pages(left[i].pages)
        } else {
            left[i] == caches[i]
        } by {
            if i < caches.len() - 1 {
                assert(caches.drop_last()[i] == caches[i]);
                assert(left[i] == before[i]);
            }
        }
        if freed < need {
            assert forall|i: int| 0 <= i < caches.len() && spare(#[trigger] caches[i]) implies !some_clean(
                left[i].pages,
            ) by {
                if i < caches.len() - 1 {
                    assert(caches.drop_last()[i] == caches[i]);
                    assert(left[i] == before[i]);
                }
            }
        }
    } else {
        broadcast use vstd::seq_lib::group_to_multiset_ensures;

        assert(Seq::<PageCache>::empty().to_multiset() =~= Multiset::empty());
        assert(all_held(caches) =~= Multiset::empty());
    }
}

/// Giving pages up keeps the contents of the file.
pub proof fn law_reclaim_keeps_the_bytes(
    s: Seq<(u32, PageCache)>,
    need: int,
    w: World,
    want: Map<int, u8>,
)
    requires
        distinct(s),
        coherent(w, false, page_map(s), want),
    ensures
        ({
            let (pages, out, _) = reclaimed(s, need);
            let after = w.all_performed(frees(out));
            &&& distinct(pages)
            &&& coherent(after, false, page_map(pages), want)
            &&& after.file == w.file
        }),
    decreases s.len(),
{
    lemma_last_clean(s);
    assert(frees(Seq::<PageCache>::empty()) =~= Seq::empty());
    if need <= 0 || last_clean(s) < 0 || s.len() == 0 {
    } else {
        lemma_given_up(s);
        let q = last_clean(s);
        let (pn, page) = s[q];
        lemma_at(s, q);
        let m = page_map(s);
        assert(m.dom().contains(pn) && m[pn] == page);
        lemma_clean_leaves(w, m, want, pn);
        let g = given_up(s);
        let out = Some((pn, page));
        assert(freed(out) =~= seq![Effect::FreePage(page)]);
        lemma_freed(w, false, page_map(g), want, out);
        let mid = w.all_performed(seq![Effect::FreePage(page)]);
        lemma_performed_one(w, Effect::FreePage(page));
        let rest = need - small_pages(page);
        law_reclaim_keeps_the_bytes(g, rest, mid, want);
        let more = reclaimed(g, rest).1;
        assert(frees(seq![page] + more) =~= seq![Effect::FreePage(page)] + frees(more));
        lemma_performed_concat(w, seq![Effect::FreePage(page)], frees(more));
    }
}

/// The pages whose memory is given back by effects.
pub open spec fn given_back(effects: Seq<Effect>) -> Seq<PageCache> {
    effects.map_values(|e: Effect| e->FreePage_0)
}

/// Shrinking the caches gives only clean pages up, no more than needed, and none of a
/// file without a device or with a listener, and tells how many small pages were
/// given up. Every dirty page stays, and what stays and what is given up are together
/// the pages that were there. It ends only when enough is free or nothing is left to
/// be given up. It does nothing else.
pub proof fn law_shrinking_gives_clean_pages_up(
    c: &mut PageCaches,
    target: usize,
    effects: &mut Vec<Effect>,
    r: usize,
)
    requires
        call_ensures(PageCaches::shrink, (c, target, effects), r),
    ensures
        ({
            let had = old(effects)@.len() as int;
            let more = final(effects)@.skip(had);
            let out = given_back(more);
            let caches = old(c)@.caches;
            let left = final(c)@.caches;
            &&& final(effects)@.take(had) == old(effects)@
            &&& forall|i: int| 0 <= i < more.len() ==> (#[trigger] more[i]) is FreePage
            &&& forall|i: int| 0 <= i < out.len() ==> !(#[trigger] out[i]).dirty
            &&& r == small_total(out)
            &&& out.len() > 0 ==> small_total(out.drop_last()) < target
            &&& left.len() == caches.len()
            &&& final(c)@.slots == old(c)@.slots
            &&& all_held(caches) == all_held(left).add(out.to_multiset())
            &&& forall|i: int|
                0 <= i < caches.len() ==> #[trigger] left_of(left[i].pages, caches[i].pages)
            &&& forall|i: int|
                0 <= i < caches.len() && ((#[trigger] caches[i]).in_memory
                    || caches[i].listeners.len() > 0) ==> left[i] == caches[i]
            &&& r >= target || forall|i: int|
                0 <= i < caches.len() && !(#[trigger] caches[i]).in_memory
                    && caches[i].listeners.len() == 0 ==> !some_clean(left[i].pages)
        }),
{
    law_shrink(old(c)@.caches, target as int);
    let (left, out, freed) = shrunk(old(c)@.caches, target as int);
    let had = old(effects)@.len() as int;
    assert(final(effects)@.skip(had) =~= frees(out));
    assert(final(effects)@.take(had) =~= old(effects)@);
    assert(given_back(frees(out)) =~= out);
}

/// Shrinking a list of caches gives only clean pages up, no more than needed, and none of a
/// file without a device or with a listener, and tells how many small pages were
/// given up. Every dirty page stays, and what stays and what is given up are together
/// the pages that were there. It ends only when enough is free or nothing is left to
/// be given up. It does nothing else.
pub proof fn law_shrinking_a_list_gives_clean_pages_up(
    c: &mut Vec<CachedFileShared>,
    target: usize,
    effects: &mut Vec<Effect>,
    r: usize,
)
    requires
        call_ensures(shrink_page_cache, (c, target, effects), r),
    ensures
        ({
            let had = old(effects)@.len() as int;
            let more = final(effects)@.skip(had);
            let out = given_back(more);
            let caches = views(old(c)@);
            let left = views(final(c)@);
            &&& final(effects)@.take(had) == old(effects)@
            &&& forall|i: int| 0 <= i < more.len() ==> (#[trigger] more[i]) is FreePage
            &&& forall|i: int| 0 <= i < out.len() ==> !(#[trigger] out[i]).dirty
            &&& r == small_total(out)
            &&& out.len() > 0 ==> small_total(out.drop_last()) < target
            &&& left.len() == caches.len()
            &&& all_held(caches) == all_held(left).add(out.to_multiset())
            &&& forall|i: int|
                0 <= i < caches.len() ==> #[trigger] left_of(left[i].pages, caches[i].pages)
            &&& forall|i: int|
                0 <= i < caches.len() && ((#[trigger] caches[i]).in_memory
                    || caches[i].listeners.len() > 0) ==> left[i] == caches[i]
            &&& r >= target || forall|i: int|
                0 <= i < caches.len() && !(#[trigger] caches[i]).in_memory
                    && caches[i].listeners.len() == 0 ==> !some_clean(left[i].pages)
        }),
{
    law_shrink(views(old(c)@), target as int);
    let (left, out, freed) = shrunk(views(old(c)@), target as int);
    let had = old(effects)@.len() as int;
    assert(final(effects)@.skip(had) =~= frees(out));
    assert(final(effects)@.take(had) =~= old(effects)@);
    assert(given_back(frees(out)) =~= out);
}

} // verus!
