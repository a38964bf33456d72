//! Which pages become dirty.

use vstd::prelude::*;
use crate::effect::Reply;
use crate::fs::cache::CacheView;
use crate::fs::fetch::PageFetch;
use crate::fs::page::PageCache;
use crate::fs::recency::{
    has_key, lemma_drop_last, lemma_lookup_map, lemma_placed, lemma_pushed, lemma_touched, lookup,
    page_map,
};
use crate::fs::transfer::{marked, Transfer};
use crate::fs::transfer_law::lemma_offset_order;

verus! {

/// Whether each dirty page of a cache was in another as it is, and each dirty page that
/// is in both stayed as it was, but for the page of one number.
pub open spec fn as_dirty_but(n: Map<u32, PageCache>, m: Map<u32, PageCache>, pn: u32) -> bool {
    forall|q: u32| #[trigger]
        n.dom().contains(q) && q != pn ==> if m.dom().contains(q) {
            n[q] == m[q]
        } else {
            !n[q].dirty
        }
}

/// A fetch makes no page dirty: the new page is clean, and the others stay as they are.
pub proof fn law_fetch_makes_no_page_dirty(f: PageFetch, cache: CacheView, reply: Reply)
    requires
        cache.wf(),
        f.awaits(reply),
    ensures
        ({
            let s = f.after(cache, reply);
            let m = page_map(cache.pages);
            let n = page_map(s.cache.pages);
            &&& as_dirty_but(n, m, f.pn)
            &&& n.dom().contains(f.pn) && n[f.pn].dirty ==> {
                ||| m.dom().contains(f.pn) && n[f.pn] == m[f.pn]
                ||| f.state is AwaitRead && n[f.pn] == f.fresh
            }
            &&& s.next.state is AwaitRead ==> !s.next.fresh.dirty
            &&& f.state is Begin && m.dom().contains(f.pn) ==> n == m
        }),
{
    reveal(PageFetch::after);
    let m = page_map(cache.pages);
    lemma_lookup_map(cache.pages, f.pn);
    if f.state is Begin {
        if has_key(cache.pages, f.pn) {
            lemma_touched(cache.pages, f.pn);
        } else if cache.full() {
            lemma_drop_last(cache.pages);
        }
    } else if f.state is AwaitPage {
        if let Reply::Addr(paddr) = reply {
            lemma_pushed(
                cache.pages,
                cache.cap,
                f.pn,
                PageCache { paddr, dirty: false, size: f.size },
            );
        }
    } else if f.state is AwaitRead {
        lemma_pushed(cache.pages, cache.cap, f.pn, f.fresh);
    }
}

/// A read makes no page dirty, and neither does a transfer of a file in memory. A write
/// to a file with a device makes the page dirty that it wrote bytes of, once it wrote
/// them, and no other.
pub proof fn law_only_written_pages_become_dirty(t: Transfer, cache: CacheView, reply: Reply, q: u32)
    requires
        cache.wf(),
        t.wf(),
        t.awaits(reply),
    ensures
        ({
            let s = t.after(cache, reply);
            let m = page_map(cache.pages);
            let n = page_map(s.cache.pages);
            let from = t.pn * 4096;
            let wrote = t.state is Moving && reply is Done && !(t.kind is Read) && from < t.end
                && t.start < from + t.page.size && t.start < t.end;
            n.dom().contains(q) ==> {
                &&& n[q].dirty ==> {
                    ||| m.dom().contains(q) && m[q].dirty
                    ||| wrote && !t.file.in_memory && q == t.pn
                    ||| t.state is Fetching && t.fetch.state is AwaitRead && t.fetch.fresh.dirty
                }
                &&& m.dom().contains(q) && wrote && !t.file.in_memory && q == t.pn ==> n[q].dirty
                    && n[q].paddr == m[q].paddr && n[q].size == m[q].size
            }
        }),
{
    reveal(PageFetch::after);
    let s = t.after(cache, reply);
    let m = page_map(cache.pages);
    match t.state {
        crate::fs::transfer::TransferState::Fetching => {
            law_fetch_makes_no_page_dirty(t.fetch, cache, reply);
        },
        crate::fs::transfer::TransferState::Moving => {
            if reply is Done {
                let (_, len) = t.part(t.page);
                let c = if len > 0 && !(t.kind is Read) && !t.file.in_memory {
                    cache.with_pages(marked(cache.pages, t.pn))
                } else {
                    cache
                };
                lemma_lookup_map(cache.pages, t.pn);
                if has_key(cache.pages, t.pn) {
                    lemma_placed(
                        cache.pages,
                        t.pn,
                        PageCache { dirty: true, ..lookup(cache.pages, t.pn).unwrap() },
                    );
                }
                assert(len > 0 <==> t.pn * 4096 < t.end && t.start < t.pn * 4096 + t.page.size && t.start
                    < t.end);
                assert(c.wf());
                let pn = (t.pn + t.page.size / crate::addr::PAGE_SIZE_4K) as u32;
                law_fetch_makes_no_page_dirty(
                    t.file.fetch_of(pn, crate::addr::PAGE_SIZE_4K),
                    c,
                    Reply::Start,
                );
                assert(pn != t.pn);
                let n = page_map(s.cache.pages);
                assert(n.dom().contains(q) ==> page_map(c.pages).dom().contains(q));
                assert(n.dom().contains(q) ==> n[q] == page_map(c.pages)[q]);
            }
        },
        _ => {
            if t.state is AwaitEnd || t.state is Begin {
                assert(s.cache == cache);
            } else {
                let start = t.start as int;
                lemma_offset_order(cache.pages, m, 0, start);
                let c = cache.with_pages(
                    crate::fs::chunks::offset_order(cache.pages, m, 0, start),
                );
                let pn = crate::fs::chunks::offset_from(m, 0, start) as u32;
                law_fetch_makes_no_page_dirty(
                    t.file.fetch_of(pn, crate::addr::PAGE_SIZE_4K),
                    c,
                    Reply::Start,
                );
            }
        },
    }
}

} // verus!
