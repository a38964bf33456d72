//! A sync writes everything back.

use vstd::prelude::*;
use crate::effect::{Effect, Reply, Request, Turn};
use crate::fs::cache::CacheView;
use crate::fs::cached_file::CachedFile;
use crate::fs::evict::{cleaned, writeback, EvictState};
use crate::fs::fetch::freed;
use crate::fs::fetch_law::{
    beside, lemma_behind_leaves, lemma_clean_leaves, lemma_written_leaves, same_sides,
};
use crate::fs::page::{PageCache, PageOperation};
use crate::fs::recency::{lemma_drop_last, page_map};
use crate::fs::sync::{drained, CacheSync, SyncState};
use crate::fs::transfer_law::lemma_freed;
use crate::fs::world::{
    backing, coherent, lemma_notices, lemma_performed_concat, lemma_performed_one, uncached, World,
};

verus! {

/// A sync in the world: where it stands, and what it waits for or ended with.
pub struct SyncRun {
    pub machine: CacheSync,
    pub cache: CacheView,
    pub world: World,
    pub turn: Option<Turn<()>>,
}

/// The sync after a reply from the world `world`.
pub open spec fn sync_resumed(a: SyncRun, reply: Reply, world: World) -> SyncRun {
    let s = a.machine.after(a.cache, reply);
    SyncRun {
        machine: s.next,
        cache: s.cache,
        world: world.all_performed(s.effects),
        turn: Some(s.turn),
    }
}

/// Whether a sync can go from `a` to `b`: it starts, or its request is answered.
pub open spec fn sync_moves(a: SyncRun, b: SyncRun) -> bool {
    match a.turn {
        None => b == sync_resumed(a, Reply::Start, a.world),
        Some(Turn::Ask(request)) => exists|reply: Reply, world: World| #[trigger]
            a.world.answers(request, reply, world) && b == sync_resumed(a, reply, world),
        Some(Turn::Finished(_)) => false,
    }
}

/// Whether a sync goes through the given stages.
pub open spec fn sync_runs(stages: Seq<SyncRun>) -> bool {
    &&& stages.len() > 0
    &&& forall|i: int| 0 <= i < stages.len() - 1 ==> sync_moves(#[trigger] stages[i], stages[i + 1])
}

/// The cached pages, and the page that is on its way out with its contents.
pub open spec fn with_dirty(cache: CacheView, dirty: Option<(u32, PageCache)>) -> Map<u32, PageCache> {
    match dirty {
        Some((pn, page)) => page_map(cache.pages).insert(pn, page),
        None => page_map(cache.pages),
    }
}

/// What holds of a sync that waits for the answer to `request`, with the bytes
/// that `want` gives.
pub open spec fn sync_waits(t: CacheSync, cache: CacheView, w: World, want: Map<int, u8>, request: Request) -> bool {
    &&& cache.wf()
    &&& !t.in_memory
    &&& match t.state {
        SyncState::Evicting => {
            let (pn, page) = (t.eviction.pn, t.eviction.page);
            &&& page.dirty
            &&& !page_map(cache.pages).dom().contains(pn)
            &&& coherent(w, false, page_map(cache.pages).insert(pn, page), want)
            &&& match t.eviction.state {
                EvictState::Begin => false,
                EvictState::AwaitLen => request is FileLen,
                EvictState::AwaitWrite => w.file.len() <= u64::MAX && Some(request) == writeback(
                    pn,
                    page,
                    w.file.len() as u64,
                ),
            }
        },
        SyncState::AwaitSync => {
            &&& request == (Request::FileSync { data_only: t.data_only })
            &&& cache.pages.len() == 0
            &&& coherent(w, false, page_map(cache.pages), want)
        },
        _ => false,
    }
}

/// The clean pages that leave are in the file.
proof fn lemma_drained(cache: CacheView, w: World, want: Map<int, u8>)
    requires
        cache.wf(),
        coherent(w, false, page_map(cache.pages), want),
    ensures
        ({
            let (left, effects, dirty) = drained(cache);
            let after = w.all_performed(effects);
            &&& left.wf()
            &&& left.listeners == cache.listeners
            &&& same_sides(w, after)
            &&& after.file == w.file
            &&& coherent(after, false, with_dirty(left, dirty), want)
            &&& dirty matches Some((pn, page)) ==> page.dirty && !page_map(left.pages).dom().contains(pn)
            &&& dirty is None ==> left.pages.len() == 0
        }),
    decreases cache.pages.len(),
{
    if cache.pages.len() > 0 {
        let m = page_map(cache.pages);
        let (pn, page) = cache.pages.last();
        let rest = cache.with_pages(cache.pages.drop_last());
        let notices = cache.notices(pn, page, PageOperation::Unmap);
        lemma_drop_last(cache.pages);
        lemma_notices(w, cache, pn, page, PageOperation::Unmap);
        assert(rest.wf()) by {
            assert forall|p: u32| #[trigger] page_map(rest.pages).dom().contains(p) implies page_map(
                rest.pages,
            )[p].wf() by {
                assert(m.dom().contains(p));
            }
        }
        if page.dirty {
            assert(page_map(rest.pages).insert(pn, page) =~= m);
        } else {
            lemma_clean_leaves(w, m, want, pn);
            let n = page_map(rest.pages);
            assert(n =~= m.remove(pn));
            let out = Some((pn, page));
            assert(freed(out) =~= seq![Effect::FreePage(page)]);
            lemma_freed(w, false, n, want, out);
            let mid = w.all_performed(seq![Effect::FreePage(page)]);
            lemma_performed_one(w, Effect::FreePage(page));
            lemma_performed_concat(w, notices, seq![Effect::FreePage(page)]);
            lemma_drained(rest, mid, want);
            lemma_performed_concat(
                w,
                notices + seq![Effect::FreePage(page)],
                drained(rest).1,
            );
        }
    }
}

/// What holds at every stage of a sync that started in the world `w`, with the
/// bytes that `want` gives.
pub open spec fn sync_invariant(
    r: SyncRun,
    in_memory: bool,
    only: bool,
    cache: CacheView,
    w: World,
    want: Map<int, u8>,
) -> bool {
    &&& r.machine.in_memory == in_memory
    &&& r.machine.data_only == only
    &&& r.world.file.len() == w.file.len()
    &&& match r.turn {
        None => {
            &&& r.machine.state is Begin
            &&& r.cache == cache
            &&& r.world == w
            &&& cache.wf()
            &&& coherent(w, in_memory, page_map(cache.pages), want)
        },
        Some(Turn::Ask(request)) => sync_waits(r.machine, r.cache, r.world, want, request),
        Some(Turn::Finished(Ok(_))) => if in_memory {
            r.cache == cache && r.world == w
        } else {
            &&& r.cache.wf()
            &&& r.cache.pages.len() == 0
            &&& coherent(r.world, false, page_map(r.cache.pages), want)
        },
        Some(Turn::Finished(Err(_))) => false,
    }
}

proof fn lemma_draining(t: CacheSync, cache: CacheView, w: World, want: Map<int, u8>, effects: Seq<Effect>)
    requires
        !t.in_memory,
        cache.wf(),
        coherent(w.all_performed(effects), false, page_map(cache.pages), want),
    ensures
        ({
            let s = t.draining(cache, effects);
            let after = w.all_performed(s.effects);
            &&& s.turn matches Turn::Ask(request) && sync_waits(s.next, s.cache, after, want, request)
            &&& after.file.len() == w.all_performed(effects).file.len()
            &&& s.next.in_memory == t.in_memory
        }),
{
    let (left, more, dirty) = drained(cache);
    lemma_performed_concat(w, effects, more);
    lemma_drained(cache, w.all_performed(effects), want);
}

/// A stage of a sync is followed by a stage of it.
proof fn lemma_sync_moves(
    a: SyncRun,
    b: SyncRun,
    in_memory: bool,
    only: bool,
    cache: CacheView,
    w: World,
    want: Map<int, u8>,
)
    requires
        sync_invariant(a, in_memory, only, cache, w, want),
        sync_moves(a, b),
    ensures
        sync_invariant(b, in_memory, only, cache, w, want),
{
    let t = a.machine;
    assert(w.all_performed(Seq::empty()) == w);
    match a.turn {
        None => {
            if !in_memory {
                lemma_draining(t, cache, w, want, Seq::empty());
            }
        },
        Some(Turn::Ask(request)) => {
            let (reply, answered) = choose|reply: Reply, world: World| #[trigger]
                a.world.answers(request, reply, world) && b == sync_resumed(a, reply, world);
            assert(answered.all_performed(Seq::empty()) == answered);
            match t.state {
                SyncState::Evicting => {
                    let (pn, page) = (t.eviction.pn, t.eviction.page);
                    let n = page_map(a.cache.pages);
                    let m = n.insert(pn, page);
                    assert(m.remove(pn) =~= n);
                    let es = t.eviction.after(a.cache, reply);
                    if es.turn is Finished {
                        if t.eviction.state is AwaitLen {
                            lemma_behind_leaves(a.world, m, want, pn);
                        } else {
                            lemma_written_leaves(a.world, answered, m, want, pn);
                        }
                        let out = Some((pn, cleaned(page)));
                        let free = seq![Effect::FreePage(cleaned(page))];
                        assert(freed(out) =~= free);
                        assert(beside(answered, n, cleaned(page))) by {
                            assert(beside(answered, n, page));
                            assert forall|p: u32| #[trigger] n.dom().contains(p) implies crate::fs::world::disjoint(
                                n[p],
                                cleaned(page),
                            ) by {
                                assert(crate::fs::world::disjoint(n[p], page));
                            }
                            assert(crate::fs::world::owned(answered, page));
                        }
                        lemma_freed(answered, false, n, want, out);
                        assert(es.effects + free =~= free);
                        let u = CacheSync { eviction: es.next, ..t };
                        lemma_draining(u, a.cache, answered, want, free);
                    }
                },
                _ => {},
            }
        },
        Some(Turn::Finished(_)) => {},
    }
}

proof fn lemma_sync_stages(
    stages: Seq<SyncRun>,
    i: int,
    in_memory: bool,
    only: bool,
    cache: CacheView,
    w: World,
    want: Map<int, u8>,
)
    requires
        sync_runs(stages),
        0 <= i < stages.len(),
        sync_invariant(stages[0], in_memory, only, cache, w, want),
    ensures
        sync_invariant(stages[i], in_memory, only, cache, w, want),
    decreases i,
{
    if i > 0 {
        lemma_sync_stages(stages, i - 1, in_memory, only, cache, w, want);
        assert(sync_moves(stages[i - 1], stages[i - 1 + 1]));
        lemma_sync_moves(stages[i - 1], stages[i], in_memory, only, cache, w, want);
    }
}

/// What a sync does: no page of a file with a device is cached any more, the file
/// itself has all its bytes, and in the end it was asked to sync, as far as was
/// wanted. A file without a device is left as it is, and asked nothing.
pub proof fn law_sync_writes_everything_back(
    m: CacheSync,
    stages: Seq<SyncRun>,
    file: CachedFile,
    data_only: bool,
    cache: CacheView,
    w: World,
    want: Map<int, u8>,
)
    requires
        cache.wf(),
        coherent(w, file.in_memory, page_map(cache.pages), want),
        call_ensures(CachedFile::sync, (&file, data_only), m),
        sync_runs(stages),
        stages[0] == (SyncRun { machine: m, cache, world: w, turn: None }),
        stages.last().turn matches Some(Turn::Finished(_)),
    ensures
        stages.last().turn matches Some(Turn::Finished(Ok(_))),
        stages.last().world.file.len() == w.file.len(),
        file.in_memory ==> stages.len() == 2 && stages.last().cache == cache && stages.last().world
            == w,
        !file.in_memory ==> stages.last().cache.pages.len() == 0 && forall|b: int| #[trigger]
            want.dom().contains(b) ==> stages.last().world.file[b] == want[b],
        !file.in_memory ==> stages.len() >= 2 && stages[stages.len() - 2].turn == Some(
            Turn::<()>::Ask(Request::FileSync { data_only }),
        ),
{
    lemma_sync_stages(stages, stages.len() - 1, file.in_memory, data_only, cache, w, want);
    let end = stages.last();
    let n = stages.len() - 2;
    assert(n >= 0);
    lemma_sync_stages(stages, n, file.in_memory, data_only, cache, w, want);
    assert(sync_moves(stages[n], stages[n + 1]));
    lemma_sync_last(stages[n], end, file.in_memory, data_only, cache, w, want);
    if !file.in_memory {
        let m = page_map(end.cache.pages);
        assert forall|b: int| #[trigger] want.dom().contains(b) implies end.world.file[b] == want[b] by {
            assert forall|p: u32| !#[trigger] crate::fs::world::holds(m, p, b) by {
                assert(!m.dom().contains(p));
            }
            assert(uncached(m, b));
            assert(backing(end.world, false, b) == want[b]);
        }
    } else {
        if n > 0 {
            assert(sync_moves(stages[n - 1], stages[n - 1 + 1]));
        }
    }
}

/// The last stage but one of a sync.
proof fn lemma_sync_last(
    a: SyncRun,
    b: SyncRun,
    in_memory: bool,
    only: bool,
    cache: CacheView,
    w: World,
    want: Map<int, u8>,
)
    requires
        sync_invariant(a, in_memory, only, cache, w, want),
        sync_moves(a, b),
        b.turn matches Some(Turn::Finished(_)),
        b.turn matches Some(Turn::Finished(Ok(_))),
    ensures
        in_memory ==> a.turn is None,
        !in_memory ==> a.turn == Some(Turn::<()>::Ask(Request::FileSync { data_only: only })),
{
    match a.turn {
        None => {
            if !in_memory {
                let t = a.machine;
                assert(t.after(a.cache, Reply::Start) == t.draining(a.cache, Seq::empty()));
            }
        },
        Some(Turn::Ask(request)) => {
            if a.machine.state is Evicting {
                let (reply, answered) = choose|reply: Reply, world: World| #[trigger]
                    a.world.answers(request, reply, world) && b == sync_resumed(a, reply, world);
                let es = a.machine.eviction.after(a.cache, reply);
                let u = CacheSync { eviction: es.next, ..a.machine };
                if let Turn::Finished(Ok(page)) = es.turn {
                    assert(b.turn == Some(
                        u.draining(a.cache, es.effects + seq![Effect::FreePage(page)]).turn,
                    ));
                }
            }
        },
        _ => {},
    }
}

} // verus!
