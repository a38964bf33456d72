//! The huge page that a collapse of a mapped file maps is the one in its cache.

use vstd::prelude::*;
use crate::addr::PAGE_SIZE_2M;
use crate::effect::{Reply, Request, Turn};
use crate::fs::cache::CacheView;
use crate::fs::merge_law::law_merged_page_is_cached;
use crate::fs::page::PageCache;
use crate::fs::recency::page_map;
use crate::mm::file_collapse::FileCollapseView;
use crate::mm::shared_collapse::SharedCollapseView;

verus! {

/// Whether a request to map a huge page asks for the memory of the clean huge page
/// that is cached for `pn`.
pub open spec fn maps_huge(m: Map<u32, PageCache>, pn: u32, request: Request) -> bool {
    request matches Request::RemapHuge { va: _, paddr, flags: _ } ==> m.dom().contains(pn) && m[pn]
        == (PageCache { paddr, dirty: false, size: PAGE_SIZE_2M })
}

/// A collapse of shared memory maps the huge page that took the place of the
/// small ones in the cache.
pub proof fn law_shared_collapse_maps_the_merged_page(
    t: SharedCollapseView,
    cache: CacheView,
    reply: Reply,
)
    requires
        t.wf(),
        t.awaits(reply),
        t.state is Merging,
        cache.wf(),
    ensures
        ({
            let s = t.after(cache, reply);
            s.turn matches Turn::Ask(request) ==> maps_huge(
                page_map(s.cache.pages),
                t.merge.start_pn,
                request,
            )
        }),
{
    reveal(SharedCollapseView::after);
    law_merged_page_is_cached(t.merge, cache, reply);
}

/// A collapse of a mapped file maps the huge page that took the place of the
/// small ones in the cache.
pub proof fn law_file_collapse_maps_the_merged_page(
    t: FileCollapseView,
    cache: CacheView,
    reply: Reply,
)
    requires
        t.wf(),
        t.awaits(cache, reply),
        t.merge.wf(),
        t.state is Merging,
        cache.wf(),
    ensures
        ({
            let s = t.after(cache, reply);
            s.turn matches Turn::Ask(request) ==> maps_huge(
                page_map(s.cache.pages),
                t.merge.start_pn,
                request,
            )
        }),
{
    reveal(FileCollapseView::after);
    law_merged_page_is_cached(t.merge, cache, reply);
}

} // verus!
