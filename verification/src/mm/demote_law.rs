//! Demoting huge pages of shared memory keeps every mapping, and leaves no huge
//! page that a range covers only partly.

use vstd::prelude::*;
use crate::addr::{huge_base, PageSize, VirtAddrRange, PAGE_SIZE_2M, THP_NR_4K_PAGES, THP_PAGE_BYTES};
use crate::effect::{Effect, Reply, Request, Turn};
use crate::fs::cache::CacheView;
use crate::fs::chunks::{chunk_from, chunk_order};
use crate::fs::recency::{lookup, page_map, touched, without};
use crate::fs::split::{Split, SplitState, SplitStep};
use crate::mm::mapped_unmap_law::lemma_table_kept;
use crate::mm::shared::SharedBackend;
use crate::mm::shared_collapse::{next_partial, Demote, DemoteState};
use crate::mm::space::{
    alike, divided, lemma_divided, number, refused, same_block, small_pages, table_ok, PageEntry,
    Space,
};

verus! {

/// The address of the huge page around a small one.
pub open spec fn huge_start(p: int) -> int {
    p / 512 * PAGE_SIZE_2M
}

/// Whether a range covers the huge page at an address whole, or nothing of it.
pub open spec fn not_partial(range: VirtAddrRange, at: int) -> bool {
    ||| at >= range.end
    ||| at + PAGE_SIZE_2M <= range.start
    ||| range.start <= at && at + PAGE_SIZE_2M <= range.end
}

/// Whether no huge page of a page table below an address is covered only partly.
pub open spec fn demoted_below(t: Map<int, PageEntry>, range: VirtAddrRange, va: int) -> bool {
    forall|p: int| #[trigger]
        t.dom().contains(p) && t[p].size is Size2M && huge_start(p) < va ==> not_partial(
            range,
            huge_start(p),
        )
}

/// Whether a page table maps every small page as another did, to the same memory
/// with the same rights.
pub open spec fn all_alike(t: Map<int, PageEntry>, t0: Map<int, PageEntry>) -> bool {
    forall|p: int| #[trigger] alike(t, t0, p)
}

/// Whether the huge pages of a page table that a range does not cover partly are
/// huge in another.
pub open spec fn spared(t: Map<int, PageEntry>, t0: Map<int, PageEntry>, range: VirtAddrRange) -> bool {
    forall|p: int| #[trigger]
        t0.dom().contains(p) && t0[p].size is Size2M && not_partial(range, huge_start(p))
            ==> t.dom().contains(p) && t[p].size is Size2M
}

/// The huge pages that are skipped are covered whole.
proof fn lemma_skipped(range: VirtAddrRange, va: int, at: int)
    requires
        va % PAGE_SIZE_2M as int == 0,
        at % PAGE_SIZE_2M as int == 0,
        range.start <= range.end,
        va <= range.end + PAGE_SIZE_2M,
    ensures
        next_partial(range, va) % PAGE_SIZE_2M as int == 0,
        va <= next_partial(range, va) <= range.end + PAGE_SIZE_2M,
        va <= at < next_partial(range, va) ==> not_partial(range, at),
        huge_base(range.start) <= va && next_partial(range, va) < range.end ==> !not_partial(
            range,
            next_partial(range, va),
        ),
    decreases range.end - va,
{
    if va >= range.end || range.start > va || range.end < va + THP_PAGE_BYTES {
    } else {
        assert((va + 2_097_152) % 2_097_152 == 0) by {
            assert(va % 2_097_152 == 0);
        }
        lemma_skipped(range, va + THP_PAGE_BYTES, at);
        assert(va % 2_097_152 == 0 && at % 2_097_152 == 0);
        assert(va < at < va + 2_097_152 ==> false);
    }
}

/// The demotion goes on to the next huge page that is covered only partly.
proof fn lemma_next(t: Map<int, PageEntry>, range: VirtAddrRange, va: int)
    requires
        va % PAGE_SIZE_2M as int == 0,
        range.start <= range.end,
        va <= range.end + PAGE_SIZE_2M,
        demoted_below(t, range, va),
    ensures
        ({
            let next = next_partial(range, va);
            &&& next % PAGE_SIZE_2M as int == 0
            &&& va <= next <= range.end + PAGE_SIZE_2M
            &&& demoted_below(t, range, next)
            &&& huge_base(range.start) <= va && next < range.end ==> !not_partial(range, next)
        }),
{
    lemma_skipped(range, va, va);
    let next = next_partial(range, va);
    assert forall|p: int| #[trigger]
        t.dom().contains(p) && t[p].size is Size2M && huge_start(p) < next implies not_partial(
        range,
        huge_start(p),
    ) by {
        let at = huge_start(p);
        assert(at % 2_097_152 == 0);
        lemma_skipped(range, va, at);
    }
}

/// The huge page at an address is the one around the small page there.
proof fn lemma_huge_here(va: usize, p: int)
    requires
        va as int % PAGE_SIZE_2M as int == 0,
    ensures
        huge_start(p) == va <==> same_block(number(va), p, PageSize::Size2M),
        huge_start(p) < va + PAGE_SIZE_2M ==> huge_start(p) <= va,
{
    assert(va as int % 2_097_152 == 0);
    assert(small_pages(PageSize::Size2M) == 512);
    assert(number(va) / 512 == va as int / 2_097_152);
}

/// Where no huge page starts, the demotion goes past.
proof fn lemma_passed_by(t: Map<int, PageEntry>, range: VirtAddrRange, va: usize)
    requires
        va as int % PAGE_SIZE_2M as int == 0,
        table_ok(t),
        demoted_below(t, range, va as int),
        t.dom().contains(number(va)) ==> !(t[number(va)].size is Size2M),
    ensures
        demoted_below(t, range, va + PAGE_SIZE_2M),
        (va + PAGE_SIZE_2M) % PAGE_SIZE_2M as int == 0,
{
    assert(va as int % 2_097_152 == 0);
    assert((va + 2_097_152) % 2_097_152 == 0);
    assert forall|p: int| #[trigger]
        t.dom().contains(p) && t[p].size is Size2M && huge_start(p) < va
            + PAGE_SIZE_2M implies not_partial(range, huge_start(p)) by {
        lemma_huge_here(va, p);
        if huge_start(p) == va {
            assert(same_block(p, number(va), t[p].size));
        }
    }
}

/// A huge page that is split is small pages.
proof fn lemma_cut_up(
    t: Map<int, PageEntry>,
    t0: Map<int, PageEntry>,
    range: VirtAddrRange,
    va: usize,
)
    requires
        va as int % PAGE_SIZE_2M as int == 0,
        table_ok(t),
        all_alike(t, t0),
        spared(t, t0, range),
        !not_partial(range, va as int),
        demoted_below(t, range, va as int),
        t.dom().contains(number(va)),
        t[number(va)].size is Size2M,
    ensures
        ({
            let u = divided(t, number(va));
            &&& table_ok(u)
            &&& all_alike(u, t0)
            &&& spared(u, t0, range)
            &&& demoted_below(u, range, va + PAGE_SIZE_2M)
        }),
        (va + PAGE_SIZE_2M) % PAGE_SIZE_2M as int == 0,
{
    let u = divided(t, number(va));
    lemma_divided(t, number(va));
    assert forall|p: int| #[trigger] alike(u, t0, p) by {
        assert(alike(u, t, p));
        assert(alike(t, t0, p));
    }
    assert forall|p: int| #[trigger]
        t0.dom().contains(p) && t0[p].size is Size2M && not_partial(
            range,
            huge_start(p),
        ) implies u.dom().contains(p) && u[p].size is Size2M by {
        lemma_huge_here(va, p);
        assert(t.dom().contains(p));
    }
    assert(demoted_below(u, range, va as int)) by {
        assert forall|p: int| #[trigger]
            u.dom().contains(p) && u[p].size is Size2M && huge_start(p) < va implies not_partial(
            range,
            huge_start(p),
        ) by {
            assert(t.dom().contains(p));
            assert(alike(u, t, p));
        }
    }
    lemma_passed_by(u, range, va);
}

/// A demotion in its space.
pub struct DemoteRun {
    pub machine: Demote,
    pub space: Space,
    pub turn: Option<Turn<()>>,
}

/// The demotion after a reply from the space `space`, the cache being `cache`.
pub open spec fn demote_resumed(a: DemoteRun, cache: CacheView, reply: Reply, space: Space) -> DemoteRun {
    let s = a.machine.after(cache, reply);
    DemoteRun { machine: s.next, space: space.all_performed(s.effects), turn: Some(s.turn) }
}

/// Whether a request of a demotion can be answered, or, if it is one to split a
/// huge page, refused. A request of the split in the cache leaves the page table
/// alone.
pub open spec fn demote_answers(
    a: DemoteRun,
    request: Request,
    cache: CacheView,
    reply: Reply,
    space: Space,
    trouble: bool,
) -> bool {
    &&& cache.wf()
    &&& a.machine.awaits(reply)
    &&& !trouble ==> !refused(reply) && !(reply is Failed)
    &&& if a.machine.state is Splitting {
        space.table == a.space.table
    } else {
        a.space.answers(request, reply, space) || (request is SplitHuge && refused(reply) && space
            == a.space)
    }
}

/// Whether a demotion can go from `a` to `b`: it starts, or its request is
/// answered. In between, others may have used the cache.
pub open spec fn demote_moves(a: DemoteRun, b: DemoteRun, trouble: bool) -> bool {
    match a.turn {
        None => exists|cache: CacheView|
            #[trigger] cache.wf() && b == demote_resumed(a, cache, Reply::Start, a.space),
        Some(Turn::Ask(request)) => exists|cache: CacheView, reply: Reply, space: Space| #[trigger]
            demote_answers(a, request, cache, reply, space, trouble) && b == demote_resumed(
                a,
                cache,
                reply,
                space,
            ),
        Some(Turn::Finished(_)) => false,
    }
}

/// Whether a demotion goes through the given stages.
pub open spec fn demote_runs(stages: Seq<DemoteRun>, trouble: bool) -> bool {
    &&& stages.len() > 0
    &&& forall|i: int|
        0 <= i < stages.len() - 1 ==> demote_moves(#[trigger] stages[i], stages[i + 1], trouble)
}

/// What holds at every stage of a demotion.
pub open spec fn demote_invariant(
    r: DemoteRun,
    range: VirtAddrRange,
    t0: Map<int, PageEntry>,
    trouble: bool,
) -> bool {
    let m = r.machine;
    let t = r.space.table;
    &&& m.range == range
    &&& table_ok(t)
    &&& all_alike(t, t0)
    &&& spared(t, t0, range)
    &&& match r.turn {
        None => m.state is Begin,
        Some(Turn::Ask(request)) => {
            &&& m.va < range.end
            &&& huge_base(range.start) <= m.va
            &&& !not_partial(range, m.va as int)
            &&& m.va as int % PAGE_SIZE_2M as int == 0
            &&& match m.state {
                DemoteState::AwaitEntry => {
                    &&& request == (Request::Query { va: m.va })
                    &&& demoted_below(t, range, m.va as int)
                },
                DemoteState::AwaitSplit => {
                    &&& request == (Request::SplitHuge { va: m.va })
                    &&& demoted_below(t, range, m.va as int)
                    &&& t.dom().contains(number(m.va))
                    &&& t[number(m.va)].size is Size2M
                },
                DemoteState::Splitting => demoted_below(t, range, m.va + PAGE_SIZE_2M),
                _ => false,
            }
        },
        Some(Turn::Finished(result)) => {
            &&& result is Ok ==> demoted_below(t, range, range.end as int)
            &&& result is Err ==> trouble
        },
    }
}

/// Turning to the next huge page that is covered only partly.
proof fn lemma_turns(
    b: DemoteRun,
    m: Demote,
    va: int,
    cache: CacheView,
    effects: Seq<Effect>,
    range: VirtAddrRange,
    t0: Map<int, PageEntry>,
    trouble: bool,
)
    requires
        range.low(PageSize::Size2M),
        m.range == range,
        huge_base(range.start) <= va <= range.end + PAGE_SIZE_2M,
        va % PAGE_SIZE_2M as int == 0,
        b.machine == m.entering(va, cache, effects).next,
        b.turn == Some(m.entering(va, cache, effects).turn),
        table_ok(b.space.table),
        all_alike(b.space.table, t0),
        spared(b.space.table, t0, range),
        demoted_below(b.space.table, range, va),
    ensures
        demote_invariant(b, range, t0, trouble),
{
    lemma_next(b.space.table, range, va);
}

/// Small pages come into the cache without fail.
proof fn lemma_going_well(t: Split, cache: CacheView)
    ensures
        !(t.going(cache).turn matches Turn::Finished(Err(_))),
    decreases THP_NR_4K_PAGES - t.done,
{
    if t.done < THP_NR_4K_PAGES {
        if cache.full() {
            let (pn, page) = cache.pages.last();
            let rest = cache.with_pages(cache.pages.drop_last());
            if !page.dirty {
                lemma_going_well(t.one_more(), t.one_in(rest));
            }
        } else {
            lemma_going_well(t.one_more(), t.one_in(cache));
        }
    }
}

/// A split fails only with a request.
pub proof fn lemma_split_fails(t: Split, cache: CacheView, reply: Reply)
    requires
        t.awaits(reply),
    ensures
        t.after(cache, reply).turn matches Turn::Finished(Err(_)) ==> reply is Failed,
{
    reveal(Split::after);
    match t.state {
        SplitState::Begin => {
            let m = page_map(cache.pages);
            let base = chunk_from(m, 0, t.pn as int).0.unwrap();
            let s = chunk_order(cache.pages, m, 0, t.pn as int);
            let huge = lookup(s, base).unwrap();
            lemma_going_well(
                Split { base_pn: base, huge, done: 0, ..t },
                cache.with_pages(without(touched(s, base), base)),
            );
        },
        SplitState::Evicting => {
            let s = t.eviction.after(cache, reply);
            let u = Split { eviction: s.next, ..t };
            lemma_going_well(u.one_more(), u.one_in(cache));
        },
        _ => {},
    }
}

/// After a step of the split in the cache.
proof fn lemma_splits(
    b: DemoteRun,
    m: Demote,
    s: SplitStep,
    range: VirtAddrRange,
    t0: Map<int, PageEntry>,
    trouble: bool,
)
    requires
        range.low(PageSize::Size2M),
        m.range == range,
        huge_base(range.start) <= m.va < range.end,
        !not_partial(range, m.va as int),
        m.va as int % PAGE_SIZE_2M as int == 0,
        b.machine == m.splitting(s).next,
        b.turn == Some(m.splitting(s).turn),
        table_ok(b.space.table),
        all_alike(b.space.table, t0),
        spared(b.space.table, t0, range),
        demoted_below(b.space.table, range, m.va + PAGE_SIZE_2M),
        s.turn matches Turn::Finished(Err(_)) ==> trouble,
    ensures
        demote_invariant(b, range, t0, trouble),
{
    assert((m.va + 2_097_152) % 2_097_152 == 0) by {
        assert(m.va as int % 2_097_152 == 0);
    }
    if s.turn matches Turn::Finished(Ok(_)) {
        let u = Demote { split: s.next, state: DemoteState::Splitting, ..m };
        lemma_turns(b, u, m.va + PAGE_SIZE_2M, s.cache, s.effects, range, t0, trouble);
    }
}

/// After a huge page was split in the page table.
proof fn lemma_follows(
    b: DemoteRun,
    m: Demote,
    cache: CacheView,
    range: VirtAddrRange,
    t0: Map<int, PageEntry>,
    trouble: bool,
)
    requires
        range.low(PageSize::Size2M),
        m.range == range,
        huge_base(range.start) <= m.va < range.end,
        !not_partial(range, m.va as int),
        m.va as int % PAGE_SIZE_2M as int == 0,
        b.machine == m.following(cache).next,
        b.turn == Some(m.following(cache).turn),
        table_ok(b.space.table),
        all_alike(b.space.table, t0),
        spared(b.space.table, t0, range),
        demoted_below(b.space.table, range, m.va + PAGE_SIZE_2M),
    ensures
        demote_invariant(b, range, t0, trouble),
{
    assert((m.va + 2_097_152) % 2_097_152 == 0) by {
        assert(m.va as int % 2_097_152 == 0);
    }
    let p = page_map(cache.pages);
    let (base, size) = chunk_from(p, 0, m.pn());
    let c = cache.with_pages(chunk_order(cache.pages, p, 0, m.pn()));
    if base is Some && size == THP_PAGE_BYTES {
        lemma_split_fails(m.backend.inner.cache.split_of(m.pn() as u32), c, Reply::Start);
        lemma_splits(
            b,
            m,
            m.backend.inner.cache.split_of(m.pn() as u32).after(c, Reply::Start),
            range,
            t0,
            trouble,
        );
    } else {
        lemma_turns(b, m, m.va + PAGE_SIZE_2M, c, Seq::empty(), range, t0, trouble);
    }
}

/// A demotion starts.
proof fn lemma_demote_starts(
    a: DemoteRun,
    b: DemoteRun,
    cache: CacheView,
    range: VirtAddrRange,
    t0: Map<int, PageEntry>,
    trouble: bool,
)
    requires
        range.low(PageSize::Size2M),
        demote_invariant(a, range, t0, trouble),
        a.turn is None,
        b == demote_resumed(a, cache, Reply::Start, a.space),
    ensures
        demote_invariant(b, range, t0, trouble),
{
    let m = a.machine;
    let t = a.space.table;
    lemma_table_kept(a.space, m.after(cache, Reply::Start).effects);
    let first = huge_base(range.start);
    assert(first % 2_097_152 == 0 && first <= range.start);
    assert(demoted_below(t, range, first)) by {
        assert forall|p: int| #[trigger]
            t.dom().contains(p) && t[p].size is Size2M && huge_start(p) < first implies not_partial(
            range,
            huge_start(p),
        ) by {
            assert(huge_start(p) % 2_097_152 == 0);
        }
    }
    lemma_turns(b, m, first, cache, Seq::empty(), range, t0, trouble);
}

/// A demotion looks at a huge page.
proof fn lemma_demote_looks(
    a: DemoteRun,
    b: DemoteRun,
    request: Request,
    cache: CacheView,
    reply: Reply,
    answered: Space,
    range: VirtAddrRange,
    t0: Map<int, PageEntry>,
    trouble: bool,
)
    requires
        range.low(PageSize::Size2M),
        demote_invariant(a, range, t0, trouble),
        a.turn == Some(Turn::<()>::Ask(request)),
        a.machine.state is AwaitEntry,
        demote_answers(a, request, cache, reply, answered, trouble),
        b == demote_resumed(a, cache, reply, answered),
    ensures
        demote_invariant(b, range, t0, trouble),
{
    let m = a.machine;
    let t = a.space.table;
    lemma_table_kept(answered, m.after(cache, reply).effects);
    if !(t.dom().contains(number(m.va)) && t[number(m.va)].size is Size2M) {
        lemma_passed_by(t, range, m.va);
        lemma_turns(b, m, m.va + PAGE_SIZE_2M, cache, Seq::empty(), range, t0, trouble);
    }
}

/// A demotion splits a huge page.
proof fn lemma_demote_cuts(
    a: DemoteRun,
    b: DemoteRun,
    request: Request,
    cache: CacheView,
    reply: Reply,
    answered: Space,
    range: VirtAddrRange,
    t0: Map<int, PageEntry>,
    trouble: bool,
)
    requires
        range.low(PageSize::Size2M),
        demote_invariant(a, range, t0, trouble),
        a.turn == Some(Turn::<()>::Ask(request)),
        a.machine.state is AwaitSplit,
        demote_answers(a, request, cache, reply, answered, trouble),
        b == demote_resumed(a, cache, reply, answered),
    ensures
        demote_invariant(b, range, t0, trouble),
{
    let m = a.machine;
    lemma_table_kept(answered, m.after(cache, reply).effects);
    if reply is Done {
        lemma_cut_up(a.space.table, t0, range, m.va);
        lemma_follows(b, m, cache, range, t0, trouble);
    }
}

/// A demotion goes on with the split in the cache.
proof fn lemma_demote_splits(
    a: DemoteRun,
    b: DemoteRun,
    request: Request,
    cache: CacheView,
    reply: Reply,
    answered: Space,
    range: VirtAddrRange,
    t0: Map<int, PageEntry>,
    trouble: bool,
)
    requires
        range.low(PageSize::Size2M),
        demote_invariant(a, range, t0, trouble),
        a.turn == Some(Turn::<()>::Ask(request)),
        a.machine.state is Splitting,
        demote_answers(a, request, cache, reply, answered, trouble),
        b == demote_resumed(a, cache, reply, answered),
    ensures
        demote_invariant(b, range, t0, trouble),
{
    let m = a.machine;
    let s = m.split.after(cache, reply);
    lemma_table_kept(answered, m.after(cache, reply).effects);
    lemma_split_fails(m.split, cache, reply);
    lemma_splits(b, m, s, range, t0, trouble);
}

/// A stage of a demotion is followed by a stage of it.
proof fn lemma_demote_moves(
    a: DemoteRun,
    b: DemoteRun,
    range: VirtAddrRange,
    t0: Map<int, PageEntry>,
    trouble: bool,
)
    requires
        range.low(PageSize::Size2M),
        demote_invariant(a, range, t0, trouble),
        demote_moves(a, b, trouble),
    ensures
        demote_invariant(b, range, t0, trouble),
{
    let m = a.machine;
    match a.turn {
        None => {
            let cache = choose|cache: CacheView|
                #[trigger] cache.wf() && b == demote_resumed(a, cache, Reply::Start, a.space);
            lemma_demote_starts(a, b, cache, range, t0, trouble);
        },
        Some(Turn::Ask(request)) => {
            let (cache, reply, answered) = choose|cache: CacheView, reply: Reply, s: Space| #[trigger]
                demote_answers(a, request, cache, reply, s, trouble) && b == demote_resumed(
                    a,
                    cache,
                    reply,
                    s,
                );
            match m.state {
                DemoteState::AwaitEntry => {
                    lemma_demote_looks(a, b, request, cache, reply, answered, range, t0, trouble);
                },
                DemoteState::AwaitSplit => {
                    lemma_demote_cuts(a, b, request, cache, reply, answered, range, t0, trouble);
                },
                _ => {
                    lemma_demote_splits(a, b, request, cache, reply, answered, range, t0, trouble);
                },
            }
        },
        Some(Turn::Finished(_)) => {},
    }
}

proof fn lemma_demote_stages(
    stages: Seq<DemoteRun>,
    i: int,
    range: VirtAddrRange,
    t0: Map<int, PageEntry>,
    trouble: bool,
)
    requires
        range.low(PageSize::Size2M),
        demote_runs(stages, trouble),
        0 <= i < stages.len(),
        demote_invariant(stages[0], range, t0, trouble),
    ensures
        demote_invariant(stages[i], range, t0, trouble),
    decreases i,
{
    if i > 0 {
        lemma_demote_stages(stages, i - 1, range, t0, trouble);
        assert(demote_moves(stages[i - 1], stages[i - 1 + 1], trouble));
        lemma_demote_moves(stages[i - 1], stages[i], range, t0, trouble);
    }
}

/// At every stage of a demotion, every small page is mapped to the same memory
/// with the same rights as before, and the huge pages that the range covers whole
/// or not at all are huge. If it succeeds, no huge page is left that the range
/// covers only partly: one that starts before the range or ends behind it, and has
/// a page of it. It succeeds unless a request is refused.
pub proof fn law_demotion_keeps_the_mappings(
    b: SharedBackend,
    range: VirtAddrRange,
    m: Demote,
    stages: Seq<DemoteRun>,
    before: Space,
    trouble: bool,
)
    requires
        range.low(PageSize::Size2M),
        table_ok(before.table),
        call_ensures(SharedBackend::demote_huge, (&b, range), m),
        demote_runs(stages, trouble),
        stages[0].machine == m,
        stages[0].space == before,
        stages[0].turn is None,
    ensures
        forall|p: int| #[trigger] alike(stages.last().space.table, before.table, p),
        spared(stages.last().space.table, before.table, range),
        stages.last().turn matches Some(Turn::Finished(Err(_))) ==> trouble,
        stages.last().turn matches Some(Turn::Finished(Ok(_))) ==> {
            let t = stages.last().space.table;
            forall|p: int| #[trigger]
                t.dom().contains(p) && t[p].size is Size2M ==> not_partial(range, huge_start(p))
        },
{
    lemma_demote_stages(stages, stages.len() - 1, range, before.table, trouble);
}

} // verus!
