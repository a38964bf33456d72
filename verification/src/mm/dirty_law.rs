//! Which pages of the cache become dirty when they are mapped.

use vstd::prelude::*;
use crate::effect::{Reply, Request, Turn};
use crate::error::PagingError;
use crate::fs::cache::CacheView;
use crate::fs::chunks::{chunk_from, chunk_order, lemma_chunk_order};
use crate::fs::dirty_law::law_fetch_makes_no_page_dirty;
use crate::fs::fetch::PageFetch;
use crate::fs::page::PageCache;
use crate::fs::recency::{has_key, lemma_lookup_map, lemma_placed, lemma_touched, lookup, page_map};
use crate::mm::file_populate::{FilePopulateState, FilePopulateView};
use crate::mm::shared_populate::{PopulateState, SharedPopulate};

verus! {

/// A fetch for an address makes no page dirty.
proof fn lemma_sought(cache: CacheView, pn: u32, f: PageFetch)
    requires
        cache.wf(),
        f.state is Begin,
        f.awaits(Reply::Start),
    ensures
        ({
            let m = page_map(cache.pages);
            let c = cache.with_pages(chunk_order(cache.pages, m, 0, pn as int));
            let n = page_map(f.after(c, Reply::Start).cache.pages);
            forall|q: u32| #[trigger] n.dom().contains(q) && n[q].dirty ==> m.dom().contains(q) && m[q].dirty
        }),
{
    let m = page_map(cache.pages);
    lemma_chunk_order(cache.pages, m, 0, pn as int);
    let c = cache.with_pages(chunk_order(cache.pages, m, 0, pn as int));
    law_fetch_makes_no_page_dirty(f, c, Reply::Start);
}

/// A population of a mapped file makes a page dirty only where the file has a device and
/// a page that is to be written is made writable.
pub proof fn law_file_population_marks_what_is_made_writable(
    t: FilePopulateView,
    cache: CacheView,
    reply: Reply,
    q: u32,
)
    requires
        cache.wf(),
        t.wf(),
        t.awaits(cache, reply),
    ensures
        ({
            let s = t.after(cache, reply);
            let m = page_map(cache.pages);
            let n = page_map(s.cache.pages);
            n.dom().contains(q) && n[q].dirty ==> {
                ||| m.dom().contains(q) && m[q].dirty
                ||| t.state is AwaitEntry && (reply matches Reply::Entry { flags, .. } && flags.bits & 2
                    != 2) && t.access_flags.bits & 2 == 2 && !t.backend.inner.cache.in_memory && q
                    == t.pn && (s.turn matches Turn::Ask(Request::Remap { va, .. }) && va == t.va)
                ||| t.state is Fetching && t.fetch.state is AwaitRead && t.fetch.fresh.dirty
            }
        }),
{
    reveal(FilePopulateView::after);
    let m = page_map(cache.pages);
    match (t.state, reply) {
        (FilePopulateState::Fetching, _) => {
            law_fetch_makes_no_page_dirty(t.fetch, cache, reply);
        },
        (FilePopulateState::AwaitEntry, Reply::Entry { .. }) => {
            lemma_lookup_map(cache.pages, t.pn);
            lemma_touched(cache.pages, t.pn);
            if has_key(cache.pages, t.pn) {
                lemma_placed(
                    cache.pages,
                    t.pn,
                    PageCache { dirty: true, ..lookup(cache.pages, t.pn).unwrap() },
                );
            }
        },
        (FilePopulateState::AwaitEntry, Reply::Fault(PagingError::NotMapped)) => {
            let (base, size) = chunk_from(m, 0, t.pn as int);
            let base_pn = match base {
                Some(pn) => pn,
                None => t.pn,
            };
            lemma_sought(cache, t.pn, t.backend.inner.cache.fetch_of(base_pn, size));
        },
        _ => {},
    }
}

/// A population of shared memory makes no page dirty.
pub proof fn law_shared_population_marks_no_page(
    t: SharedPopulate,
    cache: CacheView,
    reply: Reply,
    q: u32,
)
    requires
        cache.wf(),
        t.wf(),
        t.awaits(reply),
    ensures
        ({
            let s = t.after(cache, reply);
            let m = page_map(cache.pages);
            let n = page_map(s.cache.pages);
            n.dom().contains(q) && n[q].dirty ==> {
                ||| m.dom().contains(q) && m[q].dirty
                ||| t.state is Fetching && t.fetch.state is AwaitRead && t.fetch.fresh.dirty
            }
        }),
{
    reveal(SharedPopulate::after);
    let m = page_map(cache.pages);
    match (t.state, reply) {
        (PopulateState::Fetching, _) => {
            law_fetch_makes_no_page_dirty(t.fetch, cache, reply);
        },
        (PopulateState::AwaitEntry, Reply::Fault(PagingError::NotMapped)) => {
            let (base, size) = chunk_from(m, 0, t.pn as int);
            let base_pn = match base {
                Some(pn) => pn,
                None => t.pn,
            };
            lemma_sought(cache, t.pn, t.backend.inner.cache.fetch_of(base_pn, size));
        },
        _ => {},
    }
}

} // verus!
