//! The memory of every page that leaves the cache for one that is mapped is given back.

use vstd::prelude::*;
use crate::effect::{Reply, Turn};
use crate::fs::cache::CacheView;
use crate::fs::release_law::gives_back;
use crate::mm::file_populate::FilePopulateView;
use crate::mm::shared_populate::SharedPopulate;

verus! {

/// A population of shared memory keeps the page that left for the one it fetched until
/// that one is mapped, or cannot be, and gives its memory back then.
pub proof fn law_shared_population_frees_what_left(t: SharedPopulate, cache: CacheView, reply: Reply)
    requires
        t.awaits(reply),
    ensures
        t.state is Fetching ==> (t.fetch.after(cache, reply).turn matches Turn::Finished(Ok(fetched))
            ==> t.after(cache, reply).next.evicted == fetched.evicted && t.after(
            cache,
            reply,
        ).next.state is AwaitMap),
        t.state is AwaitMap ==> (t.evicted matches Some(entry) ==> gives_back(
            t.after(cache, reply).effects,
            entry.1,
        )),
{
    reveal(SharedPopulate::after);
    if t.state is AwaitMap {
        if let Some(entry) = t.evicted {
            assert(crate::fs::release_law::frees_page(t.after(cache, reply).effects[0], entry.1));
        }
    }
}

/// A population of a mapped file keeps the page that left for the one it fetched until
/// that one is mapped, or cannot be, gives its memory back then, and lists it among
/// those to unmap.
pub proof fn law_file_population_frees_what_left(t: FilePopulateView, cache: CacheView, reply: Reply)
    requires
        t.awaits(cache, reply),
    ensures
        t.state is Fetching ==> (t.fetch.after(cache, reply).turn matches Turn::Finished(Ok(fetched))
            ==> {
            let next = t.after(cache, reply).next;
            &&& next.state is AwaitMap
            &&& next.evicted == fetched.evicted
            &&& next.to_be_evicted == t.to_be_evicted + match fetched.evicted {
                Some(entry) => seq![entry.0],
                None => Seq::empty(),
            }
        }),
        t.state is AwaitMap ==> (t.evicted matches Some(entry) ==> gives_back(
            t.after(cache, reply).effects,
            entry.1,
        )),
        !(t.state is Fetching) && !(t.after(cache, reply).next.state is AwaitMap) ==> t.after(
            cache,
            reply,
        ).next.to_be_evicted == t.to_be_evicted,
{
    reveal(FilePopulateView::after);
    if t.state is AwaitMap {
        if let Some(entry) = t.evicted {
            assert(crate::fs::release_law::frees_page(t.after(cache, reply).effects[0], entry.1));
        }
    }
    if t.state is Fetching {
        if let Turn::Finished(Ok(fetched)) = t.fetch.after(cache, reply).turn {
            assert(t.after(cache, reply).next.to_be_evicted =~= t.to_be_evicted
                + match fetched.evicted {
                Some(entry) => seq![entry.0],
                None => Seq::empty(),
            });
        }
    }
}

} // verus!
