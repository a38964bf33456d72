//! Setting the length keeps what is left of a file and adds zeros.

use vstd::prelude::*;
use crate::addr::PAGE_SIZE_4K;
use crate::effect::{Effect, Reply, Request, Turn};
use crate::fs::cache::{CacheView, MAX_OFFSET};
use crate::fs::cached_file::CachedFile;
use crate::fs::chunks::{law_located_chunk_has_the_byte, offset_from, offset_order, step};
use crate::fs::evict::cleaned;
use crate::fs::fetch_law::on_boundary;
use crate::fs::page::{PageCache, PageOperation};
use crate::fs::recency::{lemma_at, lemma_lookup_map, lemma_touched, page_map};
use crate::fs::resize::{discard, discards, kept, lemma_kept, lemma_kept_map, Resize, ResizeState};
use crate::fs::transfer_law::{lemma_offset_order, lemma_walk_boundary};
use crate::fs::world::{
    backing, coherent, disjoint, held, holds, laid_out, lemma_notices, lemma_one_holder,
    lemma_performed_concat, lemma_performed_one, owned, resized, uncached, zeros, World,
};

verus! {

/// The change of length once the file itself has its new length.
pub open spec fn last_step(file: CachedFile, old_len: u64, len: u64) -> Resize {
    Resize { file, len, old_len, state: ResizeState::AwaitSet }
}

/// A change of length asks for the old length, then sets the new one, and ends
/// with the next step.
pub proof fn law_resize_takes_three_steps(
    file: CachedFile,
    len: u64,
    cache: CacheView,
    w: World,
    first: Reply,
    one: World,
    second: Reply,
    two: World,
)
    requires
        w.answers(Request::FileLen, first, one),
        one.answers(Request::FileSetLen(len), second, two),
    ensures
        ({
            let t = Resize { file, len, old_len: 0, state: ResizeState::Begin };
            let a = t.after(cache, Reply::Start);
            let b = a.next.after(a.cache, first);
            let c = b.next.after(b.cache, second);
            &&& a.turn == Turn::<()>::Ask(Request::FileLen)
            &&& a.effects.len() == 0
            &&& b.turn == Turn::<()>::Ask(Request::FileSetLen(len))
            &&& b.effects.len() == 0
            &&& c == last_step(file, w.file.len() as u64, len).settling(cache)
            &&& c.turn matches Turn::Finished(Ok(_))
            &&& two == (World { file: resized(w.file, len as nat), ..w })
        }),
{
}

/// Memory is given back of pages that are not cached any more: that keeps the
/// cached ones.
proof fn lemma_discarded(
    cache: CacheView,
    in_memory: bool,
    s: Seq<(u32, PageCache)>,
    pn: u32,
    w: World,
    m: Map<u32, PageCache>,
)
    requires
        laid_out(w, m),
        forall|i: int|
            0 <= i < s.len() && (#[trigger] s[i]).0 > pn ==> forall|p: u32| #[trigger]
                m.dom().contains(p) ==> disjoint(m[p], s[i].1),
    ensures
        ({
            let after = w.all_performed(discards(cache, in_memory, s, pn));
            &&& laid_out(after, m)
            &&& after.file == w.file
            &&& after.mem == w.mem
            &&& after.input == w.input
            &&& after.output == w.output
        }),
    decreases s.len(),
{
    if s.len() > 0 {
        let d = s.drop_last();
        assert forall|i: int| 0 <= i < d.len() && (#[trigger] d[i]).0 > pn implies forall|p: u32|
         #[trigger]
            m.dom().contains(p) ==> disjoint(m[p], d[i].1) by {
            assert(d[i] == s[i]);
        }
        lemma_discarded(cache, in_memory, d, pn, w, m);
        let mid = w.all_performed(discards(cache, in_memory, d, pn));
        if s.last().0 > pn {
            let entry = s.last();
            assert(entry == s[s.len() - 1]);
            let page = if in_memory {
                entry.1
            } else {
                cleaned(entry.1)
            };
            let more = discard(cache, in_memory, entry);
            lemma_performed_concat(w, discards(cache, in_memory, d, pn), more);
            if !in_memory {
                lemma_notices(mid, cache, entry.0, page, PageOperation::Unmap);
                lemma_performed_concat(
                    mid,
                    cache.notices(entry.0, page, PageOperation::Unmap),
                    seq![Effect::FreePage(page)],
                );
            }
            lemma_performed_one(mid, Effect::FreePage(page));
            let after = mid.performed(Effect::FreePage(page));
            assert forall|p: u32| #[trigger] m.dom().contains(p) implies owned(after, m[p]) by {
                assert(disjoint(m[p], entry.1));
                assert(owned(mid, m[p]));
                assert forall|a: int| m[p].paddr <= a < m[p].paddr + m[p].size implies !#[trigger] after.free.contains(
                    a,
                ) by {
                    assert(!mid.free.contains(a));
                }
            }
        }
    }
}

/// The wanted bytes before an offset.
pub open spec fn before(want: Map<int, u8>, len: int) -> Map<int, u8> {
    want.restrict(Set::new(|b: int| b < len))
}

/// A file that is cut keeps its bytes up to its new end, and no page behind that
/// is cached.
pub proof fn law_cut_keeps_the_front(
    file: CachedFile,
    len: u64,
    cache: CacheView,
    w: World,
    want: Map<int, u8>,
)
    requires
        cache.wf(),
        len <= w.file.len() <= u64::MAX,
        len <= MAX_OFFSET,
        coherent(w, file.in_memory, page_map(cache.pages), want),
    ensures
        ({
            let s = last_step(file, w.file.len() as u64, len).settling(cache);
            let cut = World { file: resized(w.file, len as nat), ..w };
            let after = cut.all_performed(s.effects);
            let m = page_map(s.cache.pages);
            &&& s.cache.wf()
            &&& after.file.len() == len
            &&& coherent(after, file.in_memory, m, before(want, len as int))
            &&& forall|p: u32| #[trigger] m.dom().contains(p) ==> p * PAGE_SIZE_4K <= len
        }),
{
    let t = last_step(file, w.file.len() as u64, len);
    let s = t.settling(cache);
    let m = page_map(cache.pages);
    let cut = World { file: resized(w.file, len as nat), ..w };
    let pn = offset_from(m, 0, len as int) as u32;
    let order = offset_order(cache.pages, m, 0, len as int);
    let n = page_map(s.cache.pages);
    let some = before(want, len as int);
    law_located_chunk_has_the_byte(m, len as int);
    assert(on_boundary(m, 0u32));
    lemma_walk_boundary(m, 0, len as int);
    lemma_offset_order(cache.pages, m, 0, len as int);
    lemma_kept(order, pn);
    lemma_kept_map(order, pn);
    assert(s.cache.pages == kept(order, pn));
    assert forall|p: u32| #[trigger] n.dom().contains(p) implies m.dom().contains(p) && n[p] == m[p]
        && p <= pn by {}
    assert(laid_out(cut, n)) by {
        assert forall|p: u32, q: u32|
            #![trigger n.dom().contains(p), n.dom().contains(q)]
            n.dom().contains(p) && n.dom().contains(q) implies (p < q ==> p + step(n, p as int) <= q) && (
        p != q ==> disjoint(n[p], n[q])) by {
            assert(m.dom().contains(p) && m.dom().contains(q));
            assert(step(n, p as int) == step(m, p as int));
        }
        assert forall|p: u32| #[trigger] n.dom().contains(p) implies owned(cut, n[p]) && n[p].wf() by {
            assert(m.dom().contains(p));
            assert(owned(w, m[p]));
        }
    }
    assert forall|i: int| 0 <= i < order.len() && (#[trigger] order[i]).0 > pn implies forall|p: u32|
     #[trigger]
        n.dom().contains(p) ==> disjoint(n[p], order[i].1) by {
        lemma_at(order, i);
        lemma_lookup_map(order, order[i].0);
        assert(m.dom().contains(order[i].0) && m[order[i].0] == order[i].1);
        assert forall|p: u32| #[trigger] n.dom().contains(p) implies disjoint(n[p], order[i].1) by {
            assert(m.dom().contains(p));
            assert(p != order[i].0);
        }
    }
    lemma_discarded(cache, file.in_memory, order, pn, cut, n);
    let after = cut.all_performed(s.effects);
    assert(s.cache.wf());
    assert forall|b: int, p: u32|
        #![trigger some.dom().contains(b), holds(n, p, b)]
        some.dom().contains(b) && holds(n, p, b) implies held(after, n, p, b) == some[b] && (
    file.in_memory || n[p].dirty || after.file[b] == some[b]) by {
        assert(want.dom().contains(b));
        assert(holds(m, p, b));
        assert(held(w, m, p, b) == want[b]);
        assert(after.file[b] == w.file[b]);
    }
    assert forall|b: int| #[trigger] some.dom().contains(b) && uncached(n, b) implies backing(
        after,
        file.in_memory,
        b,
    ) == some[b] by {
        assert(want.dom().contains(b));
        assert forall|p: u32| !#[trigger] holds(m, p, b) by {
            if holds(m, p, b) {
                assert(m.dom().contains(p));
                if p <= pn {
                    assert(holds(n, p, b));
                } else {
                    if m.dom().contains(pn) {
                        assert(pn + step(m, pn as int) <= p);
                    }
                }
            }
        }
        assert(uncached(m, b));
        assert(backing(w, file.in_memory, b) == want[b]);
        assert(after.file[b] == w.file[b]);
    }
    assert forall|p: u32| #[trigger] n.dom().contains(p) implies p * PAGE_SIZE_4K <= len by {}
}

/// The wanted bytes of a file that grew: those before, and zeros behind the old
/// end where the page with the old end in it, or no page, holds them.
pub open spec fn grown(want: Map<int, u8>, m: Map<u32, PageCache>, pn: u32, old_len: int, len: int) -> Map<
    int,
    u8,
> {
    Map::new(
        |b: int|
            want.dom().contains(b) || (old_len <= b < len && (holds(m, pn, b) || uncached(m, b))),
        |b: int|
            if b < old_len {
                want[b]
            } else {
                0u8
            },
    )
}

/// A file that grows keeps its bytes, and has zeros behind its old end: in the
/// page with the old end in it, and where no page is cached.
pub proof fn law_growth_adds_zeros(
    file: CachedFile,
    len: u64,
    cache: CacheView,
    w: World,
    want: Map<int, u8>,
)
    requires
        cache.wf(),
        w.file.len() < len,
        w.file.len() <= MAX_OFFSET,
        coherent(w, file.in_memory, page_map(cache.pages), want),
    ensures
        ({
            let old_len = w.file.len() as u64;
            let s = last_step(file, old_len, len).settling(cache);
            let longer = World { file: resized(w.file, len as nat), ..w };
            let after = longer.all_performed(s.effects);
            let m = page_map(cache.pages);
            let pn = offset_from(m, 0, old_len as int) as u32;
            &&& s.cache.wf()
            &&& page_map(s.cache.pages) == m
            &&& after.file.len() == len
            &&& coherent(after, file.in_memory, m, grown(want, m, pn, old_len as int, len as int))
        }),
{
    let old_len = w.file.len() as u64;
    let t = last_step(file, old_len, len);
    let s = t.settling(cache);
    let m = page_map(cache.pages);
    let longer = World { file: resized(w.file, len as nat), ..w };
    let after = longer.all_performed(s.effects);
    let pn = offset_from(m, 0, old_len as int) as u32;
    let order = offset_order(cache.pages, m, 0, old_len as int);
    let all = grown(want, m, pn, old_len as int, len as int);
    law_located_chunk_has_the_byte(m, old_len as int);
    assert(on_boundary(m, 0u32));
    lemma_walk_boundary(m, 0, old_len as int);
    lemma_offset_order(cache.pages, m, 0, old_len as int);
    lemma_touched(order, pn);
    lemma_lookup_map(order, pn);
    assert(s.cache.wf());
    let from = old_len - pn * PAGE_SIZE_4K;
    assert(longer.all_performed(Seq::empty()) == longer);
    if m.dom().contains(pn) {
        let page = m[pn];
        assert(page.wf());
        lemma_performed_one(longer, t.clearing(pn as int, page));
        assert(seq![t.clearing(pn as int, page)] =~= s.effects);
    }
    assert forall|p: u32| #[trigger] m.dom().contains(p) implies owned(after, m[p]) by {
        assert(owned(w, m[p]));
    }
    assert(laid_out(after, m));
    assert forall|b: int, p: u32|
        #![trigger all.dom().contains(b), holds(m, p, b)]
        all.dom().contains(b) && holds(m, p, b) implies held(after, m, p, b) == all[b] && (
    file.in_memory || m[p].dirty || after.file[b] == all[b]) by {
        assert(m.dom().contains(p));
        let a = m[p].paddr + (b - p * PAGE_SIZE_4K);
        if b < old_len {
            assert(want.dom().contains(b));
            assert(held(w, m, p, b) == want[b]);
            assert(after.file[b] == w.file[b]);
            if m.dom().contains(pn) {
                if p != pn {
                    assert(disjoint(m[p], m[pn]));
                }
                assert(after.mem[a] == w.mem[a]);
            }
        } else {
            if !holds(m, pn, b) {
                assert(uncached(m, b));
                assert(false);
            }
            lemma_one_holder(m, p, pn, b);
            let to = if len - pn * PAGE_SIZE_4K < m[pn].size {
                len - pn * PAGE_SIZE_4K
            } else {
                m[pn].size as int
            };
            assert(zeros((to - from) as nat)[a - (m[pn].paddr + from)] == 0u8);
            assert(after.mem[a] == 0u8);
            assert(after.file[b] == 0u8);
        }
    }
    assert forall|b: int| #[trigger] all.dom().contains(b) && uncached(m, b) implies backing(
        after,
        file.in_memory,
        b,
    ) == all[b] by {
        if b < old_len {
            assert(want.dom().contains(b));
            assert(backing(w, file.in_memory, b) == want[b]);
            assert(after.file[b] == w.file[b]);
        } else {
            assert(after.file[b] == 0u8);
        }
    }
    assert forall|b: int| #[trigger] all.dom().contains(b) implies 0 <= b < after.file.len() by {
        if want.dom().contains(b) {
            assert(0 <= b < w.file.len());
        }
    }
}

/// Whether the bytes of a file after its length was set are known: those before
/// that are left, and zeros behind the old end, in the cached page with the old end
/// in it and where no page is cached.
pub open spec fn left_and_zeros(
    want: Map<int, u8>,
    after: Map<int, u8>,
    m: Map<u32, PageCache>,
    old_len: int,
    len: int,
) -> bool {
    forall|b: int| #[trigger]
        after.dom().contains(b) ==> b < len && if b < old_len {
            want.dom().contains(b) && after[b] == want[b]
        } else {
            after[b] == 0 && (uncached(m, b) || exists|p: u32| #[trigger]
                holds(m, p, old_len) && holds(m, p, b))
        }
}

/// A file whose length is set has that length, keeps its bytes up to the shorter of
/// both lengths, and has zeros behind its old end: in the cached page with the old
/// end in it, and where no page is cached. The file itself is asked for its length,
/// and then told the new one.
pub proof fn law_set_len_keeps_the_front(
    file: CachedFile,
    len: u64,
    t: Resize,
    cache: CacheView,
    w: World,
    want: Map<int, u8>,
    after: Map<int, u8>,
    first: Reply,
    one: World,
    second: Reply,
    two: World,
)
    requires
        call_ensures(CachedFile::set_len, (&file, len), t),
        cache.wf(),
        coherent(w, file.in_memory, page_map(cache.pages), want),
        w.answers(Request::FileLen, first, one),
        one.answers(Request::FileSetLen(len), second, two),
        w.file.len() <= MAX_OFFSET || len <= MAX_OFFSET,
        left_and_zeros(want, after, page_map(cache.pages), w.file.len() as int, len as int),
    ensures
        ({
            let a = t.after(cache, Reply::Start);
            let b = a.next.after(a.cache, first);
            let c = b.next.after(b.cache, second);
            let end = two.all_performed(a.effects + b.effects + c.effects);
            &&& a.turn == Turn::<()>::Ask(Request::FileLen)
            &&& b.turn == Turn::<()>::Ask(Request::FileSetLen(len))
            &&& c.turn == Turn::Finished(Ok::<(), crate::error::VfsError>(()))
            &&& c.cache.wf()
            &&& end.file.len() == len
            &&& coherent(end, file.in_memory, page_map(c.cache.pages), after)
            &&& forall|p: u32| #[trigger]
                page_map(c.cache.pages).dom().contains(p) ==> p * 4096 <= len || w.file.len() < len
        }),
{
    let a = t.after(cache, Reply::Start);
    let b = a.next.after(a.cache, first);
    let c = b.next.after(b.cache, second);
    let m = page_map(cache.pages);
    let old_len = w.file.len() as u64;
    law_resize_takes_three_steps(file, len, cache, w, first, one, second, two);
    assert(a.effects + b.effects + c.effects =~= c.effects);
    let end = two.all_performed(c.effects);
    if len <= old_len {
        law_cut_keeps_the_front(file, len, cache, w, want);
        let all = before(want, len as int);
        assert forall|x: int| #[trigger] after.dom().contains(x) implies all.dom().contains(x)
            && after[x] == all[x] by {}
        lemma_fewer_wanted(end, file.in_memory, page_map(c.cache.pages), all, after);
    } else {
        law_growth_adds_zeros(file, len, cache, w, want);
        let pn = offset_from(m, 0, old_len as int) as u32;
        let all = grown(want, m, pn, old_len as int, len as int);
        law_located_chunk_has_the_byte(m, old_len as int);
        assert(on_boundary(m, 0u32));
        lemma_walk_boundary(m, 0, old_len as int);
        assert forall|x: int| #[trigger] after.dom().contains(x) implies all.dom().contains(x)
            && after[x] == all[x] by {
            if x >= old_len && !uncached(m, x) {
                let p = choose|p: u32| #[trigger] holds(m, p, old_len as int) && holds(m, p, x);
                assert(m.dom().contains(p));
                assert(m[p].wf());
                if p < pn {
                    assert(p + step(m, p as int) <= pn);
                    assert(false);
                } else if pn < p {
                    assert(false);
                }
            }
        }
        lemma_fewer_wanted(end, file.in_memory, page_map(c.cache.pages), all, after);
    }
}

/// A cache that has bytes has some of them.
proof fn lemma_fewer_wanted(
    w: World,
    in_memory: bool,
    m: Map<u32, PageCache>,
    all: Map<int, u8>,
    some: Map<int, u8>,
)
    requires
        coherent(w, in_memory, m, all),
        forall|b: int| #[trigger]
            some.dom().contains(b) ==> all.dom().contains(b) && some[b] == all[b],
    ensures
        coherent(w, in_memory, m, some),
{
    assert forall|b: int, pn: u32|
        #![trigger some.dom().contains(b), holds(m, pn, b)]
        some.dom().contains(b) && holds(m, pn, b) implies held(w, m, pn, b) == some[b] && (in_memory
        || m[pn].dirty || w.file[b] == some[b]) by {
        assert(all.dom().contains(b));
    }
    assert forall|b: int| #[trigger] some.dom().contains(b) && uncached(m, b) implies backing(
        w,
        in_memory,
        b,
    ) == some[b] by {
        assert(all.dom().contains(b));
    }
    assert forall|b: int| #[trigger] some.dom().contains(b) implies 0 <= b < w.file.len() by {
        assert(all.dom().contains(b));
    }
}

} // verus!
