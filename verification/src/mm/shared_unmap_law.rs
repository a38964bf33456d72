//! Unmapping shared memory keeps the contents of the file, also where a cached huge
//! page is split.

use vstd::prelude::*;
use crate::addr::VirtAddrRange;
use crate::effect::{Effect, Reply, Request, Turn};
use crate::fs::cache::CacheView;
use crate::fs::cached_file::CachedFile;
use crate::fs::recency::page_map;
use crate::fs::split::{lemma_chunk_found, Split, SplitStep};
use crate::fs::split_law::{
    huge_clean, lemma_split_begins, lemma_split_goes_on, split_steps, split_waits,
};
use crate::fs::transfer_law::roomy;
use crate::fs::world::coherent;
use crate::mm::mapped_unmap_law::{shared_resumed, SharedUnmapRun};
use crate::mm::shared::{in_mapping, page_number, SharedBackend, SharedUnmap, SharedUnmapState};
use crate::mm::space::{lemma_around, refused, Space};

verus! {

/// Whether a request of an unmapping can be answered or refused, or a request of
/// the split in the cache is answered, which leaves the page table alone.
pub open spec fn backed_answers(
    a: SharedUnmapRun,
    request: Request,
    reply: Reply,
    space: Space,
) -> bool {
    &&& a.machine.awaits(a.cache, reply)
    &&& if a.machine.state is Splitting {
        space.table == a.space.table && a.space.around().answers(request, reply, space.around())
    } else {
        a.space.answers(request, reply, space) || (refused(reply) && space == a.space)
    }
}

/// Whether an unmapping can go from `a` to `b`: it starts, or a request of it or
/// of the split in the cache is answered.
pub open spec fn backed_moves(a: SharedUnmapRun, b: SharedUnmapRun) -> bool {
    match a.turn {
        None => b == shared_resumed(a, Reply::Start, a.space),
        Some(Turn::Ask(request)) => exists|reply: Reply, space: Space| #[trigger]
            backed_answers(a, request, reply, space) && b == shared_resumed(a, reply, space),
        Some(Turn::Finished(_)) => false,
    }
}

/// Whether an unmapping goes through the given stages.
pub open spec fn backed_runs(stages: Seq<SharedUnmapRun>) -> bool {
    &&& stages.len() > 0
    &&& forall|i: int|
        0 <= i < stages.len() - 1 ==> backed_moves(#[trigger] stages[i], stages[i + 1])
}

/// Whether a cache in a space has the bytes that `want` gives, and can keep them
/// where a huge page is split: it has room for all pages of a file without a
/// device, and the huge pages of another are in step with the file.
#[verifier::opaque]
pub open spec fn backed(file: CachedFile, cache: CacheView, space: Space, want: Map<int, u8>) -> bool {
    &&& cache.wf()
    &&& roomy(file.in_memory, cache)
    &&& file.in_memory || huge_clean(page_map(cache.pages))
    &&& coherent(space.around(), file.in_memory, page_map(cache.pages), want)
}

/// What holds at every stage of an unmapping.
pub open spec fn backed_invariant(r: SharedUnmapRun, file: CachedFile, want: Map<int, u8>) -> bool {
    let m = r.machine;
    &&& m.backend.inner.cache == file
    &&& in_mapping(m.backend.inner.start, m.range)
    &&& m.range.start <= m.va
    &&& match r.turn {
        None => m.state is Begin && backed(file, r.cache, r.space, want),
        Some(Turn::Ask(request)) => {
            &&& m.va < m.range.end
            &&& match m.state {
                SharedUnmapState::Splitting => {
                    &&& m.split.file == file
                    &&& split_waits(m.split, r.cache, r.space.around(), want, request)
                    &&& roomy(file.in_memory, r.cache)
                    &&& file.in_memory || huge_clean(page_map(r.cache.pages))
                },
                SharedUnmapState::AwaitEntry => {
                    &&& request is Query
                    &&& backed(file, r.cache, r.space, want)
                },
                SharedUnmapState::AwaitHuge => {
                    &&& request is Query
                    &&& !(m.step is Size1G)
                    &&& backed(file, r.cache, r.space, want)
                },
                SharedUnmapState::AwaitUnmap => {
                    &&& request is UnmapPage
                    &&& !(m.step is Size1G)
                    &&& backed(file, r.cache, r.space, want)
                },
                SharedUnmapState::AwaitSplit => {
                    &&& request is SplitHuge
                    &&& backed(file, r.cache, r.space, want)
                },
                _ => false,
            }
        },
        Some(Turn::Finished(_)) => backed(file, r.cache, r.space, want),
    }
}

/// A step without a split leaves the cache alone.
proof fn lemma_plain_steps(m: SharedUnmap, cache: CacheView, reply: Reply)
    requires
        in_mapping(m.backend.inner.start, m.range),
        m.range.start <= m.va,
        m.awaits(cache, reply),
        !(m.state is Splitting),
        !(m.state is AwaitSplit && reply is Done),
        m.state is Begin || m.va < m.range.end,
        m.state is AwaitHuge || m.state is AwaitUnmap ==> !(m.step is Size1G),
    ensures
        ({
            let s = m.after(cache, reply);
            &&& s.effects == Seq::<Effect>::empty()
            &&& s.cache == cache
            &&& s.next.backend == m.backend
            &&& s.next.range == m.range
            &&& m.range.start <= s.next.va
            &&& s.turn matches Turn::Ask(request) ==> {
                &&& s.next.va < m.range.end
                &&& match s.next.state {
                    SharedUnmapState::AwaitEntry => request is Query,
                    SharedUnmapState::AwaitHuge => request is Query && !(s.next.step is Size1G),
                    SharedUnmapState::AwaitUnmap => request is UnmapPage && !(s.next.step is Size1G),
                    SharedUnmapState::AwaitSplit => request is SplitHuge,
                    _ => false,
                }
            }
        }),
{
}

/// A step of the split in the cache.
proof fn lemma_split_steps(
    m: SharedUnmap,
    s: SplitStep,
    b: SharedUnmapRun,
    answered: Space,
    file: CachedFile,
    want: Map<int, u8>,
)
    requires
        m.backend.inner.cache == file,
        in_mapping(m.backend.inner.start, m.range),
        m.range.start <= m.va < m.range.end,
        s.next.file == file,
        roomy(file.in_memory, s.cache),
        file.in_memory || huge_clean(page_map(s.cache.pages)),
        split_steps(
            Split { file, ..m.split },
            s,
            answered.around().all_performed(s.effects),
            want,
        ),
        ({
            let next = m.splitting(s);
            b == SharedUnmapRun {
                machine: next.next,
                cache: next.cache,
                space: answered.all_performed(next.effects),
                turn: Some(next.turn),
            }
        }),
    ensures
        backed_invariant(b, file, want),
{
    reveal(backed);
    lemma_around(answered, s.effects);
}

/// A stage of an unmapping is followed by a stage of it.
proof fn lemma_backed_moves(a: SharedUnmapRun, b: SharedUnmapRun, file: CachedFile, want: Map<int, u8>)
    requires
        backed_invariant(a, file, want),
        backed_moves(a, b),
    ensures
        backed_invariant(b, file, want),
{
    let m = a.machine;
    match a.turn {
        None => {
            lemma_plain_steps(m, a.cache, Reply::Start);
            assert(a.space.all_performed(Seq::empty()) == a.space);
        },
        Some(Turn::Ask(request)) => {
            let (reply, answered) = choose|reply: Reply, s: Space| #[trigger]
                backed_answers(a, request, reply, s) && b == shared_resumed(a, reply, s);
            if m.state is Splitting {
                let s = m.split.after(a.cache, reply);
                lemma_split_goes_on(
                    m.split,
                    a.cache,
                    a.space.around(),
                    want,
                    request,
                    reply,
                    answered.around(),
                );
                lemma_split_steps(m, s, b, answered, file, want);
            } else if m.state is AwaitSplit && reply is Done {
                let pn = page_number(m.backend.inner.start, m.va as int) as u32;
                assert(pn + 512 <= u32::MAX) by {
                    let d = m.va - m.backend.inner.start;
                    assert(d + 2_097_152 <= u32::MAX * 4096);
                    assert(d / 4096 + 512 <= u32::MAX);
                }
                assert(answered.around() == a.space.around());
                assert(backed(file, a.cache, answered, want)) by {
                    reveal(backed);
                }
                lemma_here_splits(m, a.cache, answered, file, want);
                let s = m.splitting_here().after(a.cache, Reply::Start);
                lemma_split_steps(m, s, b, answered, file, want);
            } else {
                lemma_plain_steps(m, a.cache, reply);
                assert(answered.all_performed(Seq::empty()) == answered);
                assert(answered.around() == a.space.around());
                reveal(backed);
            }
        },
        Some(Turn::Finished(_)) => {},
    }
}

/// The split of the page where an unmapping stands begins.
proof fn lemma_here_splits(
    m: SharedUnmap,
    cache: CacheView,
    space: Space,
    file: CachedFile,
    want: Map<int, u8>,
)
    requires
        m.backend.inner.cache == file,
        backed(file, cache, space, want),
        m.splitting_here().splits(cache),
        page_number(m.backend.inner.start, m.va as int) >= 0,
        page_number(m.backend.inner.start, m.va as int) + 512 <= u32::MAX,
    ensures
        ({
            let s = m.splitting_here().after(cache, Reply::Start);
            &&& s.next.file == file
            &&& roomy(file.in_memory, s.cache)
            &&& file.in_memory || huge_clean(page_map(s.cache.pages))
            &&& split_steps(
                Split { file, ..m.split },
                s,
                space.around().all_performed(s.effects),
                want,
            )
        }),
{
    reveal(backed);
    let pn = page_number(m.backend.inner.start, m.va as int) as u32;
    lemma_chunk_found(page_map(cache.pages), 0, pn as int);
    lemma_split_begins(file, pn, cache, space.around(), want);
}

proof fn lemma_backed_stages(stages: Seq<SharedUnmapRun>, i: int, file: CachedFile, want: Map<int, u8>)
    requires
        backed_runs(stages),
        0 <= i < stages.len(),
        backed_invariant(stages[0], file, want),
    ensures
        backed_invariant(stages[i], file, want),
    decreases i,
{
    if i > 0 {
        lemma_backed_stages(stages, i - 1, file, want);
        assert(backed_moves(stages[i - 1], stages[i - 1 + 1]));
        lemma_backed_moves(stages[i - 1], stages[i], file, want);
    }
}

/// An unmapping of shared memory keeps the contents of the file, whether it
/// succeeds or a request to the page table is refused: where it splits a cached
/// huge page, the small pages hold what the huge one held.
pub proof fn law_shared_unmap_keeps_the_bytes(
    b: SharedBackend,
    range: VirtAddrRange,
    m: SharedUnmap,
    stages: Seq<SharedUnmapRun>,
    want: Map<int, u8>,
)
    requires
        call_ensures(SharedBackend::unmap, (&b, range), m),
        backed_runs(stages),
        stages[0].machine == m,
        stages[0].turn is None,
        backed(b.inner.cache, stages[0].cache, stages[0].space, want),
        stages.last().turn matches Some(Turn::Finished(_)),
    ensures
        backed(b.inner.cache, stages.last().cache, stages.last().space, want),
{
    lemma_backed_stages(stages, stages.len() - 1, b.inner.cache, want);
}

} // verus!
