//! An operation on a cached file that is told of a failure ends with it.

use vstd::prelude::*;
use crate::effect::{Effect, Reply, Turn};
use crate::error::VfsError;
use crate::fs::cache::CacheView;
use crate::fs::evict::Eviction;
use crate::fs::fetch::{Fetched, PageFetch};
use crate::fs::merge::Merge;
use crate::fs::page::PageCache;
use crate::fs::recency::{lemma_pushed, page_map};
use crate::fs::resize::Resize;
use crate::fs::split::Split;
use crate::fs::sync::CacheSync;
use crate::fs::transfer::Transfer;

verus! {

/// An eviction whose page cannot be written back fails, and does nothing else.
pub proof fn law_failed_eviction_ends(t: Eviction, cache: CacheView, e: VfsError)
    requires
        t.awaits(Reply::Failed(e)),
    ensures
        t.after(cache, Reply::Failed(e)).turn == Turn::Finished(Err::<PageCache, VfsError>(e)),
        t.after(cache, Reply::Failed(e)).effects.len() == 0,
{
}

/// A fetch that is told of a failure fails with it, leaves the cache as it is, and
/// gives the memory of a new page back.
pub proof fn law_failed_fetch_ends(f: PageFetch, cache: CacheView, e: VfsError)
    requires
        f.awaits(Reply::Failed(e)),
    ensures
        ({
            let s = f.after(cache, Reply::Failed(e));
            &&& s.turn == Turn::Finished(Err::<Fetched, VfsError>(e))
            &&& s.cache == cache
            &&& f.state is AwaitRead ==> s.effects.contains(Effect::FreePage(f.fresh))
        }),
{
    reveal(PageFetch::after);
    let s = f.after(cache, Reply::Failed(e));
    if f.state is AwaitRead {
        assert(s.effects[0] == Effect::FreePage(f.fresh));
    }
}

/// A transfer that is told of a failure fails with it, and leaves the pages of the
/// cache as they are.
pub proof fn law_failed_transfer_ends(t: Transfer, cache: CacheView, e: VfsError)
    requires
        t.awaits(Reply::Failed(e)),
    ensures
        t.after(cache, Reply::Failed(e)).turn == Turn::Finished(Err::<(usize, u64), VfsError>(e)),
        t.after(cache, Reply::Failed(e)).cache == cache,
{
    if t.state is Fetching {
        law_failed_fetch_ends(t.fetch, cache, e);
    }
}

/// A change of length that is told of a failure fails with it, and does nothing else.
pub proof fn law_failed_resize_ends(t: Resize, cache: CacheView, e: VfsError)
    requires
        t.awaits(Reply::Failed(e)),
    ensures
        t.after(cache, Reply::Failed(e)).turn == Turn::Finished(Err::<(), VfsError>(e)),
        t.after(cache, Reply::Failed(e)).cache == cache,
        t.after(cache, Reply::Failed(e)).effects.len() == 0,
{
}

/// A sync that is told of a failure fails with it, and leaves the pages that are
/// still cached as they are.
pub proof fn law_failed_sync_ends(t: CacheSync, cache: CacheView, e: VfsError)
    requires
        t.awaits(Reply::Failed(e)),
    ensures
        t.after(cache, Reply::Failed(e)).turn == Turn::Finished(Err::<(), VfsError>(e)),
        t.after(cache, Reply::Failed(e)).cache == cache,
{
}

/// A split that is told of a failure fails with it. The page that was to leave goes
/// back into the cache.
pub proof fn law_failed_split_ends(t: Split, cache: CacheView, e: VfsError)
    requires
        t.awaits(Reply::Failed(e)),
        cache.wf(),
    ensures
        ({
            let s = t.after(cache, Reply::Failed(e));
            let m = page_map(s.cache.pages);
            &&& s.turn == Turn::Finished(Err::<usize, VfsError>(e))
            &&& m.dom().contains(t.eviction.pn)
            &&& m[t.eviction.pn] == t.eviction.page
        }),
{
    reveal(Split::after);
    lemma_pushed(cache.pages, cache.cap, t.eviction.pn, t.eviction.page);
}

/// A merge that gets no memory fails, and leaves the cache as it is.
pub proof fn law_failed_merge_ends(t: Merge, cache: CacheView, e: VfsError)
    requires
        t.awaits(Reply::Failed(e)),
    ensures
        t.after(cache, Reply::Failed(e)).turn == Turn::Finished(Err::<usize, VfsError>(e)),
        t.after(cache, Reply::Failed(e)).cache == cache,
        t.after(cache, Reply::Failed(e)).effects.len() == 0,
{
}

} // verus!
