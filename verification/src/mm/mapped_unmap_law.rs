//! Unmapping a mapped file leaves nothing mapped in the range, and nothing else
//! changed.

use vstd::prelude::*;
use crate::addr::{PageSize, VirtAddrRange, PAGE_SIZE_4K};
use crate::effect::{Reply, Request, Turn};
use crate::error::AxError;
use crate::fs::cache::CacheView;
use crate::mm::cow_unmap_law::cleared;
use crate::mm::demote_law::lemma_split_fails;
use crate::mm::file::{FileBackend, FileUnmap, FileUnmapState};
use crate::mm::shared::{SharedBackend, SharedUnmap, SharedUnmapState};
use crate::mm::space::{
    alike, divided, lemma_block_at, lemma_divided, lemma_fits, lemma_taken, number, refused,
    same_block, table_ok, taken, tiled, within, PageEntry, Space,
};

verus! {

/// Whether a range can be unmapped: it is one of small pages, and the page table
/// has small and huge pages in it.
pub open spec fn clearable(t: Map<int, PageEntry>, range: VirtAddrRange) -> bool {
    &&& range.wf()
    &&& range.aligned_to(PageSize::Size4K)
    &&& table_ok(t)
    &&& tiled(t, range, PageSize::Size4K)
}

/// Whether an unmapping has come to an address.
pub open spec fn cleared_to(
    t: Map<int, PageEntry>,
    t0: Map<int, PageEntry>,
    range: VirtAddrRange,
    va: int,
) -> bool {
    &&& table_ok(t)
    &&& tiled(t, range, PageSize::Size4K)
    &&& cleared(t, t0, range, va)
}

/// Whether an unmapping stands at an address of its range.
pub open spec fn stands(range: VirtAddrRange, va: usize) -> bool {
    range.start <= va < range.end && va as int % PAGE_SIZE_4K as int == 0
}

/// Whether a page of the page table starts at an address and lies in the range.
pub open spec fn page_at(
    t: Map<int, PageEntry>,
    range: VirtAddrRange,
    va: usize,
    step: PageSize,
) -> bool {
    &&& t.dom().contains(number(va))
    &&& t[number(va)].size == step
    &&& va as int % step.bytes() as int == 0
    &&& va + step.bytes() <= range.end
    &&& step is Size4K || step is Size2M
}

/// How far an unmapping has come that ends.
pub open spec fn come_to(range: VirtAddrRange, va: usize, result: Result<(), AxError>) -> int {
    if result is Ok {
        range.end as int
    } else {
        va as int
    }
}

/// An address at which nothing is mapped is passed.
proof fn lemma_hole(t: Map<int, PageEntry>, t0: Map<int, PageEntry>, range: VirtAddrRange, va: usize)
    requires
        clearable(t0, range),
        stands(range, va),
        cleared_to(t, t0, range, va as int),
        !t.dom().contains(number(va)),
    ensures
        cleared_to(t, t0, range, va + PAGE_SIZE_4K),
        va + PAGE_SIZE_4K <= range.end,
        (va + PAGE_SIZE_4K) % PAGE_SIZE_4K as int == 0,
{
    lemma_fits(va, range, PageSize::Size4K);
    assert(cleared(t, t0, range, va + PAGE_SIZE_4K)) by {
        assert forall|q: int|
            if within(range, q) && q * PAGE_SIZE_4K < va + PAGE_SIZE_4K {
                !#[trigger] t.dom().contains(q)
            } else {
                alike(t, t0, q)
            } by {
            assert(t.dom().contains(q) || !t.dom().contains(q));
            if va <= q * PAGE_SIZE_4K < va + PAGE_SIZE_4K {
                assert(q == number(va));
            }
        }
    }
}

/// A page is unmapped.
proof fn lemma_gone(
    t: Map<int, PageEntry>,
    t0: Map<int, PageEntry>,
    range: VirtAddrRange,
    va: usize,
    step: PageSize,
)
    requires
        clearable(t0, range),
        stands(range, va),
        cleared_to(t, t0, range, va as int),
        page_at(t, range, va, step),
    ensures
        cleared_to(taken(t, number(va)), t0, range, va + step.bytes()),
        (va + step.bytes()) % PAGE_SIZE_4K as int == 0,
{
    let p = number(va);
    let u = taken(t, p);
    let next = va + step.bytes();
    lemma_taken(t, p);
    assert(cleared(u, t0, range, next)) by {
        assert forall|q: int|
            if within(range, q) && q * PAGE_SIZE_4K < next {
                !#[trigger] u.dom().contains(q)
            } else {
                alike(u, t0, q)
            } by {
            lemma_block_at(va, step, q);
            assert(t.dom().contains(q) || !t.dom().contains(q));
            if !same_block(p, q, t[p].size) {
                assert(alike(u, t, q));
            }
        }
    }
    assert(tiled(u, range, PageSize::Size4K)) by {
        assert forall|q: int| #[trigger] u.dom().contains(q) && within(range, q) implies u[q].size
            is Size4K || u[q].size is Size2M by {
            assert(t.dom().contains(q));
        }
    }
}

/// A huge page is divided.
proof fn lemma_cut(t: Map<int, PageEntry>, t0: Map<int, PageEntry>, range: VirtAddrRange, va: usize)
    requires
        cleared_to(t, t0, range, va as int),
        t.dom().contains(number(va)),
        t[number(va)].size is Size2M,
    ensures
        cleared_to(divided(t, number(va)), t0, range, va as int),
{
    let u = divided(t, number(va));
    lemma_divided(t, number(va));
    assert(cleared(u, t0, range, va as int)) by {
        assert forall|q: int|
            if within(range, q) && q * PAGE_SIZE_4K < va {
                !#[trigger] u.dom().contains(q)
            } else {
                alike(u, t0, q)
            } by {
            assert(t.dom().contains(q) == u.dom().contains(q));
            assert(alike(u, t, q));
        }
    }
    assert(tiled(u, range, PageSize::Size4K)) by {
        assert forall|q: int| #[trigger] u.dom().contains(q) && within(range, q) implies u[q].size
            is Size4K || u[q].size is Size2M by {
            assert(t.dom().contains(q));
        }
    }
}

/// What is left when an unmapping has come to an address.
proof fn lemma_aside(t: Map<int, PageEntry>, t0: Map<int, PageEntry>, range: VirtAddrRange, va: int)
    requires
        cleared(t, t0, range, va),
    ensures
        forall|p: int| within(range, p) && p * PAGE_SIZE_4K < va ==> !#[trigger] t.dom().contains(p),
        forall|p: int| !within(range, p) ==> #[trigger] alike(t, t0, p),
{
    assert forall|p: int| !within(range, p) implies #[trigger] alike(t, t0, p) by {
        assert(t.dom().contains(p) || !t.dom().contains(p));
    }
}

/// An unmapping of a file's pages in its space.
pub struct FileUnmapRun {
    pub machine: FileUnmap,
    pub space: Space,
    pub turn: Option<Turn<()>>,
}

/// The unmapping after a reply from the space `space`.
pub open spec fn file_resumed(a: FileUnmapRun, reply: Reply, space: Space) -> FileUnmapRun {
    let (next, turn) = a.machine.after(reply);
    FileUnmapRun { machine: next, space, turn: Some(turn) }
}

/// Whether a request can be answered, or, where there is trouble, refused.
pub open spec fn file_answers(
    a: FileUnmapRun,
    request: Request,
    reply: Reply,
    space: Space,
    trouble: bool,
) -> bool {
    a.space.answers(request, reply, space) || (trouble && refused(reply) && space == a.space)
}

/// Whether an unmapping can go from `a` to `b`: it starts, or its request is
/// answered.
pub open spec fn file_moves(a: FileUnmapRun, b: FileUnmapRun, trouble: bool) -> bool {
    match a.turn {
        None => b == file_resumed(a, Reply::Start, a.space),
        Some(Turn::Ask(request)) => exists|reply: Reply, space: Space| #[trigger]
            file_answers(a, request, reply, space, trouble) && b == file_resumed(a, reply, space),
        Some(Turn::Finished(_)) => false,
    }
}

/// Whether an unmapping goes through the given stages.
pub open spec fn file_runs(stages: Seq<FileUnmapRun>, trouble: bool) -> bool {
    &&& stages.len() > 0
    &&& forall|i: int|
        0 <= i < stages.len() - 1 ==> file_moves(#[trigger] stages[i], stages[i + 1], trouble)
}

/// What holds at every stage of an unmapping of a file's pages.
pub open spec fn file_invariant(
    r: FileUnmapRun,
    range: VirtAddrRange,
    before: Space,
    trouble: bool,
) -> bool {
    let m = r.machine;
    let t = r.space.table;
    &&& m.range == range
    &&& match r.turn {
        None => m.state is Begin && m.va == range.start && r.space == before,
        Some(Turn::Ask(request)) => {
            &&& stands(range, m.va)
            &&& cleared_to(t, before.table, range, m.va as int)
            &&& match m.state {
                FileUnmapState::AwaitEntry => request == (Request::Query { va: m.va }),
                FileUnmapState::AwaitHuge => request == (Request::Query { va: m.va }) && page_at(
                    t,
                    range,
                    m.va,
                    m.step,
                ),
                FileUnmapState::AwaitUnmap => request == (Request::UnmapPage { va: m.va }) && page_at(
                    t,
                    range,
                    m.va,
                    m.step,
                ),
                FileUnmapState::AwaitSplit => request == (Request::SplitHuge { va: m.va }),
                _ => false,
            }
        },
        Some(Turn::Finished(result)) => {
            &&& result is Ok || trouble
            &&& cleared_to(t, before.table, range, come_to(range, m.va, result))
        },
    }
}

/// A stage of an unmapping of a file's pages is followed by a stage of it.
proof fn lemma_file_moves(
    a: FileUnmapRun,
    b: FileUnmapRun,
    range: VirtAddrRange,
    before: Space,
    trouble: bool,
)
    requires
        clearable(before.table, range),
        file_invariant(a, range, before, trouble),
        file_moves(a, b, trouble),
    ensures
        file_invariant(b, range, before, trouble),
{
    let m = a.machine;
    let t = a.space.table;
    let t0 = before.table;
    match a.turn {
        None => {
            assert(cleared(t0, t0, range, range.start as int));
        },
        Some(Turn::Ask(request)) => {
            let (reply, answered) = choose|reply: Reply, s: Space| #[trigger]
                file_answers(a, request, reply, s, trouble) && b == file_resumed(a, reply, s);
            lemma_fits(m.va, range, PageSize::Size4K);
            assert(within(range, number(m.va)));
            match m.state {
                FileUnmapState::AwaitEntry => {
                    if !t.dom().contains(number(m.va)) {
                        lemma_hole(t, t0, range, m.va);
                    }
                },
                FileUnmapState::AwaitUnmap => {
                    lemma_gone(t, t0, range, m.va, m.step);
                },
                FileUnmapState::AwaitSplit => {
                    if reply is Done {
                        lemma_cut(t, t0, range, m.va);
                    }
                },
                _ => {},
            }
        },
        Some(Turn::Finished(_)) => {},
    }
}

proof fn lemma_file_stages(
    stages: Seq<FileUnmapRun>,
    i: int,
    range: VirtAddrRange,
    before: Space,
    trouble: bool,
)
    requires
        clearable(before.table, range),
        file_runs(stages, trouble),
        0 <= i < stages.len(),
        file_invariant(stages[0], range, before, trouble),
    ensures
        file_invariant(stages[i], range, before, trouble),
    decreases i,
{
    if i > 0 {
        lemma_file_stages(stages, i - 1, range, before, trouble);
        assert(file_moves(stages[i - 1], stages[i - 1 + 1], trouble));
        lemma_file_moves(stages[i - 1], stages[i], range, before, trouble);
    }
}

/// At every stage of an unmapping of a file's pages, every page outside of its
/// range is as it was. If it succeeds, nothing is left mapped in the range. It
/// succeeds unless a request is refused.
pub proof fn law_file_unmap_clears_the_range(
    b: FileBackend,
    range: VirtAddrRange,
    m: FileUnmap,
    stages: Seq<FileUnmapRun>,
    before: Space,
    trouble: bool,
)
    requires
        clearable(before.table, range),
        call_ensures(FileBackend::unmap, (&b, range), m),
        file_runs(stages, trouble),
        stages[0] == (FileUnmapRun { machine: m, space: before, turn: None }),
    ensures
        forall|p: int|
            !within(range, p) ==> #[trigger] alike(stages.last().space.table, before.table, p),
        stages.last().turn matches Some(Turn::Finished(result)) ==> {
            &&& !trouble ==> result is Ok
            &&& result is Ok ==> forall|p: int|
                within(range, p) ==> !#[trigger] stages.last().space.table.dom().contains(p)
        },
{
    lemma_file_stages(stages, stages.len() - 1, range, before, trouble);
    let m = stages.last().machine;
    let t = stages.last().space.table;
    match stages.last().turn {
        None => {},
        Some(Turn::Ask(_)) => {
            lemma_aside(t, before.table, range, m.va as int);
        },
        Some(Turn::Finished(result)) => {
            lemma_aside(t, before.table, range, come_to(range, m.va, result));
        },
    }
}

/// An unmapping of shared memory in its space.
pub struct SharedUnmapRun {
    pub machine: SharedUnmap,
    pub cache: CacheView,
    pub space: Space,
    pub turn: Option<Turn<()>>,
}

/// The unmapping after a reply from the space `space`.
pub open spec fn shared_resumed(a: SharedUnmapRun, reply: Reply, space: Space) -> SharedUnmapRun {
    let s = a.machine.after(a.cache, reply);
    SharedUnmapRun {
        machine: s.next,
        cache: s.cache,
        space: space.all_performed(s.effects),
        turn: Some(s.turn),
    }
}

/// Whether an unmapping can go from `a` to `b`: it starts, its request is
/// answered, or a request of the split in the cache is, which leaves the page
/// table alone.
pub open spec fn shared_moves(a: SharedUnmapRun, b: SharedUnmapRun, trouble: bool) -> bool {
    match a.turn {
        None => b == shared_resumed(a, Reply::Start, a.space),
        Some(Turn::Ask(request)) => exists|reply: Reply, space: Space| #[trigger]
            shared_answers(a, request, reply, space, trouble) && b == shared_resumed(a, reply, space),
        Some(Turn::Finished(_)) => false,
    }
}

/// Whether a request of an unmapping can be answered, or, if there is trouble,
/// refused.
pub open spec fn shared_answers(
    a: SharedUnmapRun,
    request: Request,
    reply: Reply,
    space: Space,
    trouble: bool,
) -> bool {
    &&& !trouble ==> !(reply is Failed) && a.machine.awaits(a.cache, reply)
    &&& if a.machine.state is Splitting {
        space.table == a.space.table
    } else {
        a.space.answers(request, reply, space) || (trouble && refused(reply) && space == a.space)
    }
}

/// Whether an unmapping goes through the given stages.
pub open spec fn shared_runs(stages: Seq<SharedUnmapRun>, trouble: bool) -> bool {
    &&& stages.len() > 0
    &&& forall|i: int|
        0 <= i < stages.len() - 1 ==> shared_moves(#[trigger] stages[i], stages[i + 1], trouble)
}

/// Effects leave the page table alone.
pub proof fn lemma_table_kept(s: Space, effects: Seq<crate::effect::Effect>)
    ensures
        s.all_performed(effects).table == s.table,
    decreases effects.len(),
{
    if effects.len() > 0 {
        lemma_table_kept(s, effects.drop_last());
    }
}

/// What holds at every stage of an unmapping of shared memory.
pub open spec fn shared_invariant(
    r: SharedUnmapRun,
    range: VirtAddrRange,
    before: Space,
    trouble: bool,
) -> bool {
    let m = r.machine;
    let t = r.space.table;
    &&& m.range == range
    &&& match r.turn {
        None => m.state is Begin && m.va == range.start && r.space == before,
        Some(Turn::Ask(request)) => {
            &&& stands(range, m.va)
            &&& cleared_to(t, before.table, range, m.va as int)
            &&& match m.state {
                SharedUnmapState::AwaitEntry => request == (Request::Query { va: m.va }),
                SharedUnmapState::AwaitHuge => request == (Request::Query { va: m.va }) && page_at(
                    t,
                    range,
                    m.va,
                    m.step,
                ),
                SharedUnmapState::AwaitUnmap => request == (Request::UnmapPage { va: m.va })
                    && page_at(t, range, m.va, m.step),
                SharedUnmapState::AwaitSplit => request == (Request::SplitHuge { va: m.va })
                    && t.dom().contains(number(m.va)) && t[number(m.va)].size is Size2M,
                SharedUnmapState::Splitting => true,
                _ => false,
            }
        },
        Some(Turn::Finished(result)) => {
            &&& cleared_to(t, before.table, range, come_to(range, m.va, result))
            &&& result is Err ==> trouble
        },
    }
}

/// A stage of an unmapping of shared memory is followed by a stage of it.
proof fn lemma_shared_moves(
    a: SharedUnmapRun,
    b: SharedUnmapRun,
    range: VirtAddrRange,
    before: Space,
    trouble: bool,
)
    requires
        clearable(before.table, range),
        shared_invariant(a, range, before, trouble),
        shared_moves(a, b, trouble),
    ensures
        shared_invariant(b, range, before, trouble),
{
    let m = a.machine;
    let t = a.space.table;
    let t0 = before.table;
    match a.turn {
        None => {
            assert(cleared(t0, t0, range, range.start as int));
            lemma_table_kept(a.space, m.after(a.cache, Reply::Start).effects);
        },
        Some(Turn::Ask(request)) => {
            let (reply, answered) = choose|reply: Reply, s: Space| #[trigger]
                shared_answers(a, request, reply, s, trouble) && b == shared_resumed(a, reply, s);
            lemma_table_kept(answered, m.after(a.cache, reply).effects);
            lemma_fits(m.va, range, PageSize::Size4K);
            assert(within(range, number(m.va)));
            match m.state {
                SharedUnmapState::AwaitEntry => {
                    if !t.dom().contains(number(m.va)) {
                        lemma_hole(t, t0, range, m.va);
                    }
                },
                SharedUnmapState::AwaitUnmap => {
                    lemma_gone(t, t0, range, m.va, m.step);
                },
                SharedUnmapState::AwaitSplit => {
                    if reply is Done {
                        lemma_cut(t, t0, range, m.va);
                        lemma_split_fails(m.splitting_here(), a.cache, Reply::Start);
                    }
                },
                SharedUnmapState::Splitting => {
                    if !trouble {
                        lemma_split_fails(m.split, a.cache, reply);
                    }
                },
                _ => {},
            }
        },
        Some(Turn::Finished(_)) => {},
    }
}

proof fn lemma_shared_stages(
    stages: Seq<SharedUnmapRun>,
    i: int,
    range: VirtAddrRange,
    before: Space,
    trouble: bool,
)
    requires
        clearable(before.table, range),
        shared_runs(stages, trouble),
        0 <= i < stages.len(),
        shared_invariant(stages[0], range, before, trouble),
    ensures
        shared_invariant(stages[i], range, before, trouble),
    decreases i,
{
    if i > 0 {
        lemma_shared_stages(stages, i - 1, range, before, trouble);
        assert(shared_moves(stages[i - 1], stages[i - 1 + 1], trouble));
        lemma_shared_moves(stages[i - 1], stages[i], range, before, trouble);
    }
}

/// At every stage of an unmapping of shared memory, whether its requests are
/// answered or refused, every page outside of its range is as it was. If it
/// succeeds, nothing is left mapped in the range. It succeeds unless a request is
/// refused.
pub proof fn law_shared_unmap_clears_the_range(
    b: SharedBackend,
    range: VirtAddrRange,
    m: SharedUnmap,
    stages: Seq<SharedUnmapRun>,
    before: Space,
    trouble: bool,
)
    requires
        clearable(before.table, range),
        call_ensures(SharedBackend::unmap, (&b, range), m),
        shared_runs(stages, trouble),
        stages[0].machine == m,
        stages[0].space == before,
        stages[0].turn is None,
    ensures
        forall|p: int|
            !within(range, p) ==> #[trigger] alike(stages.last().space.table, before.table, p),
        stages.last().turn matches Some(Turn::Finished(Err(_))) ==> trouble,
        stages.last().turn matches Some(Turn::Finished(Ok(_))) ==> forall|p: int|
            within(range, p) ==> !#[trigger] stages.last().space.table.dom().contains(p),
{
    lemma_shared_stages(stages, stages.len() - 1, range, before, trouble);
    let m = stages.last().machine;
    let t = stages.last().space.table;
    match stages.last().turn {
        None => {},
        Some(Turn::Ask(_)) => {
            lemma_aside(t, before.table, range, m.va as int);
        },
        Some(Turn::Finished(result)) => {
            lemma_aside(t, before.table, range, come_to(range, m.va, result));
        },
    }
}

} // verus!
