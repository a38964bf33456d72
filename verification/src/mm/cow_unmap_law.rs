//! Unmapping private memory gives its frames back, and nothing else.

use vstd::prelude::*;
use crate::addr::{whole_huge, PageSize, VirtAddrRange, PAGE_SIZE_2M, PAGE_SIZE_4K, THP_NR_4K_PAGES};
use crate::effect::{Effect, Reply, Request, Turn};
use crate::mm::cow::{CowBackend, CowUnmap, CowUnmapState};
use crate::mm::frames::{
    all_decremented, all_dropped, count, counts_ok, decremented, dropped, lemma_all_decremented,
    sub_frame,
};
use crate::mm::space::{
    accounted, alike, divided, leads, lemma_block_at, lemma_divided, lemma_fits, lemma_taken,
    lemma_used, lemma_user_gone, number, same_block, table_ok, taken, tiled, users, uses, within,
    Space, PageEntry,
};

verus! {

/// An unmapping in its space: where it stands, what it did so far, and what it
/// waits for or ended with.
pub struct UnmapRun {
    pub machine: CowUnmap,
    pub frames: Map<usize, u8>,
    pub space: Space,
    pub effects: Seq<Effect>,
    pub turn: Option<Turn<()>>,
}

/// The unmapping after a reply from the space `space`.
pub open spec fn unmap_resumed(a: UnmapRun, reply: Reply, space: Space) -> UnmapRun {
    let s = a.machine.after(a.frames, reply);
    UnmapRun {
        machine: s.next,
        frames: s.frames,
        space: space.all_performed(s.effects),
        effects: a.effects + s.effects,
        turn: Some(s.turn),
    }
}

/// Whether an unmapping can go from `a` to `b`: it starts, or its request is
/// answered.
pub open spec fn unmap_moves(a: UnmapRun, b: UnmapRun) -> bool {
    match a.turn {
        None => b == unmap_resumed(a, Reply::Start, a.space),
        Some(Turn::Ask(request)) => exists|reply: Reply, space: Space| #[trigger]
            a.space.answers(request, reply, space) && b == unmap_resumed(a, reply, space),
        Some(Turn::Finished(_)) => false,
    }
}

/// Whether an unmapping goes through the given stages.
pub open spec fn unmap_runs(stages: Seq<UnmapRun>) -> bool {
    &&& stages.len() > 0
    &&& forall|i: int| 0 <= i < stages.len() - 1 ==> unmap_moves(#[trigger] stages[i], stages[i + 1])
}

/// Whether a frame was given back.
pub open spec fn given_back(effects: Seq<Effect>, frame: usize, size: PageSize) -> bool {
    effects.contains(Effect::FreeFrame { paddr: frame, size })
}

/// Whether an unmapping can stand at the start of a range.
pub open spec fn unmappable(
    backend: CowBackend,
    range: VirtAddrRange,
    frames: Map<usize, u8>,
    table: Map<int, PageEntry>,
    elsewhere: spec_fn(usize) -> nat,
) -> bool {
    &&& range.wf()
    &&& range.aligned_to(backend.size)
    &&& table_ok(table)
    &&& tiled(table, range, backend.size)
    &&& counts_ok(frames)
    &&& accounted(table, range, backend.size, frames, elsewhere)
}

/// Whether everything in a range below an address is unmapped, and everything
/// else is mapped as it was.
pub open spec fn cleared(
    t: Map<int, PageEntry>,
    t0: Map<int, PageEntry>,
    range: VirtAddrRange,
    va: int,
) -> bool {
    forall|p: int|
        if within(range, p) && p * PAGE_SIZE_4K < va {
            !#[trigger] t.dom().contains(p)
        } else {
            alike(t, t0, p)
        }
}

/// Whether exactly those frames were given back that had a use in the range and
/// have none any more.
pub open spec fn settled(
    effects: Seq<Effect>,
    t0: Map<int, PageEntry>,
    range: VirtAddrRange,
    size: PageSize,
    frames: Map<usize, u8>,
) -> bool {
    &&& effects.no_duplicates()
    &&& forall|frame: usize| #[trigger]
        given_back(effects, frame, size) == (uses(t0, range, size, frame) > 0 && count(frames, frame)
            == 0)
    &&& forall|e: Effect| #[trigger]
        effects.contains(e) ==> (e matches Effect::FreeFrame { paddr: _, size: s } && s == size)
}

/// What holds at every stage of an unmapping.
pub open spec fn unmap_invariant(
    r: UnmapRun,
    backend: CowBackend,
    range: VirtAddrRange,
    space: Space,
    elsewhere: spec_fn(usize) -> nat,
) -> bool {
    let m = r.machine;
    let t = r.space.table;
    let size = backend.size;
    &&& m.size == size
    &&& m.range == range
    &&& table_ok(t)
    &&& tiled(t, range, size)
    &&& counts_ok(r.frames)
    &&& r.space.mem == space.mem
    &&& settled(r.effects, space.table, range, size, r.frames)
    &&& match r.turn {
        None => m.state is Begin && m.va == range.start && t == space.table && accounted(
            t,
            range,
            size,
            r.frames,
            elsewhere,
        ),
        Some(Turn::Ask(request)) => {
            &&& range.start <= m.va < range.end
            &&& m.va as int % size.bytes() as int == 0
            &&& cleared(t, space.table, range, m.va as int)
            &&& match m.state {
                CowUnmapState::AwaitEntry => request == (Request::Query { va: m.va }) && accounted(
                    t,
                    range,
                    size,
                    r.frames,
                    elsewhere,
                ),
                CowUnmapState::AwaitHuge => {
                    &&& request == (Request::Query { va: m.va })
                    &&& accounted(t, range, size, r.frames, elsewhere)
                    &&& size is Size4K
                    &&& t.dom().contains(number(m.va))
                    &&& t[number(m.va)].size is Size2M
                    &&& m.step is Size2M
                    &&& whole_huge(m.va, range.end)
                },
                CowUnmapState::AwaitSplit => {
                    &&& request == (Request::SplitHuge { va: m.va })
                    &&& accounted(t, range, size, r.frames, elsewhere)
                    &&& size is Size4K
                    &&& t.dom().contains(number(m.va))
                    &&& t[number(m.va)].size is Size2M
                },
                CowUnmapState::AwaitUnmap => {
                    &&& request == (Request::UnmapPage { va: m.va })
                    &&& t.dom().contains(number(m.va))
                    &&& t[number(m.va)].size == m.step
                    &&& m.va as int % m.step.bytes() as int == 0
                    &&& m.va + m.step.bytes() <= range.end
                    &&& accounted(taken(t, number(m.va)), range, size, r.frames, elsewhere)
                },
                _ => false,
            }
        },
        Some(Turn::Finished(result)) => {
            &&& result is Ok
            &&& accounted(t, range, size, r.frames, elsewhere)
            &&& cleared(t, space.table, range, range.end as int)
        },
    }
}

/// The counts are right without a page whose frame was counted off.
proof fn lemma_one_counted_off(
    t: Map<int, PageEntry>,
    range: VirtAddrRange,
    size: PageSize,
    frames: Map<usize, u8>,
    elsewhere: spec_fn(usize) -> nat,
    va: usize,
)
    requires
        table_ok(t),
        counts_ok(frames),
        accounted(t, range, size, frames, elsewhere),
        range.start <= va < range.end,
        va as int % size.bytes() as int == 0,
        t.dom().contains(number(va)),
        t[number(va)].size == size,
    ensures
        ({
            let frame = t[number(va)].paddr as usize;
            &&& accounted(taken(t, number(va)), range, size, decremented(frames, frame), elsewhere)
            &&& counts_ok(decremented(frames, frame))
            &&& uses(t, range, size, frame) > 0
        }),
{
    let p = number(va);
    let frame = t[p].paddr as usize;
    let u = taken(t, p);
    let left = decremented(frames, frame);
    lemma_block_at(va, size, p);
    assert forall|q: int| same_block(p, q, size) && leads(q, size) implies q == p by {
        lemma_block_at(va, size, q);
        match size {
            PageSize::Size4K => {},
            PageSize::Size2M => {},
            PageSize::Size1G => {},
        }
    }
    assert(users(t, range, size, frame).contains(p));
    assert(users(u, range, size, frame) =~= users(t, range, size, frame).remove(p));
    lemma_user_gone(t, u, range, size, frame, p);
    assert forall|f: usize| #[trigger] count(left, f) == elsewhere(f) + uses(u, range, size, f) by {
        assert(count(frames, f) == elsewhere(f) + uses(t, range, size, f));
        if f != frame {
            assert(users(u, range, size, f) =~= users(t, range, size, f));
        }
    }
}

/// The small frames of a huge page are counted off, one each.
proof fn lemma_block_counted_off(
    t: Map<int, PageEntry>,
    range: VirtAddrRange,
    frames: Map<usize, u8>,
    elsewhere: spec_fn(usize) -> nat,
    va: usize,
)
    requires
        table_ok(t),
        counts_ok(frames),
        accounted(t, range, PageSize::Size4K, frames, elsewhere),
        range.start <= va,
        va + PAGE_SIZE_2M <= range.end,
        va as int % PAGE_SIZE_2M as int == 0,
        t.dom().contains(number(va)),
        t[number(va)].size is Size2M,
    ensures
        ({
            let base = t[number(va)].paddr as usize;
            let left = all_decremented(frames, base, THP_NR_4K_PAGES as nat);
            &&& base + PAGE_SIZE_2M <= usize::MAX
            &&& accounted(taken(t, number(va)), range, PageSize::Size4K, left, elsewhere)
            &&& forall|i: int|
                0 <= i < THP_NR_4K_PAGES ==> uses(
                    t,
                    range,
                    PageSize::Size4K,
                    #[trigger] sub_frame(base, i),
                ) > 0
        }),
{
    let size = PageSize::Size4K;
    let p = number(va);
    let base = t[p].paddr as usize;
    let u = taken(t, p);
    let left = all_decremented(frames, base, THP_NR_4K_PAGES as nat);
    assert forall|q: int| #[trigger] same_block(p, q, PageSize::Size2M) == (p <= q < p + 512) by {
        lemma_block_at(va, PageSize::Size2M, q);
    }
    assert(same_block(p, p + 511, t[p].size));
    assert(t.dom().contains(p + 511));
    assert(t[p + 511].paddr - t[p].paddr == 511 * PAGE_SIZE_4K);
    assert(base + PAGE_SIZE_2M <= usize::MAX);
    lemma_all_decremented(frames, base, THP_NR_4K_PAGES as nat);
    assert forall|i: int| 0 <= i < THP_NR_4K_PAGES implies users(
        t,
        range,
        size,
        #[trigger] sub_frame(base, i),
    ).contains(p + i) by {
        assert(same_block(p, p + i, t[p].size));
        assert(t[p + i].paddr - t[p].paddr == i * PAGE_SIZE_4K);
    }
    assert forall|i: int| 0 <= i < THP_NR_4K_PAGES implies uses(
        t,
        range,
        size,
        #[trigger] sub_frame(base, i),
    ) > 0 by {
        lemma_used(t, range, size, sub_frame(base, i), p + i);
    }
    assert forall|f: usize| #[trigger] count(left, f) == elsewhere(f) + uses(u, range, size, f) by {
        assert(count(frames, f) == elsewhere(f) + uses(t, range, size, f));
        if exists|i: int| 0 <= i < THP_NR_4K_PAGES && f == #[trigger] sub_frame(base, i) {
            let i = choose|i: int| 0 <= i < THP_NR_4K_PAGES && f == #[trigger] sub_frame(base, i);
            assert forall|q: int| #[trigger] users(u, range, size, f).contains(q) == users(
                t,
                range,
                size,
                f,
            ).remove(p + i).contains(q) by {
                if same_block(p, q, t[p].size) && t.dom().contains(q) {
                    assert(t[q].paddr - t[p].paddr == (q - p) * PAGE_SIZE_4K);
                }
            }
            assert(users(u, range, size, f) =~= users(t, range, size, f).remove(p + i));
            lemma_user_gone(t, u, range, size, f, p + i);
        } else {
            assert forall|q: int| #[trigger] users(u, range, size, f).contains(q) == users(
                t,
                range,
                size,
                f,
            ).contains(q) by {
                if same_block(p, q, t[p].size) && t.dom().contains(q) {
                    assert(t[q].paddr - t[p].paddr == (q - p) * PAGE_SIZE_4K);
                    assert(t[q].paddr == sub_frame(base, q - p));
                }
            }
            assert(users(u, range, size, f) =~= users(t, range, size, f));
        }
    }
}

/// A frame that is counted off is given back exactly if that was its last use.
proof fn lemma_settled_one(
    effects: Seq<Effect>,
    t0: Map<int, PageEntry>,
    range: VirtAddrRange,
    size: PageSize,
    frames: Map<usize, u8>,
    frame: usize,
)
    requires
        settled(effects, t0, range, size, frames),
        counts_ok(frames),
        uses(t0, range, size, frame) > 0,
    ensures
        settled(
            effects + dropped(frames, frame, size),
            t0,
            range,
            size,
            decremented(frames, frame),
        ),
        counts_ok(decremented(frames, frame)),
{
    let more = dropped(frames, frame, size);
    let all = effects + more;
    let left = decremented(frames, frame);
    let e = Effect::FreeFrame { paddr: frame, size };
    assert forall|x: Effect| #[trigger] all.contains(x) == (effects.contains(x) || more.contains(x)) by {
        if effects.contains(x) {
            let i = effects.index_of(x);
            assert(all[i] == x);
        }
        if more.contains(x) {
            assert(all[effects.len() as int] == x);
        }
        if all.contains(x) {
            let i = choose|i: int| 0 <= i < all.len() && all[i] == x;
            if i < effects.len() {
                assert(effects[i] == x);
            } else {
                assert(more[i - effects.len()] == x);
            }
        }
    }
    if count(frames, frame) == 1 {
        assert(more =~= seq![e]);
        assert(more[0] == e);
        assert(more.contains(e));
        assert(!given_back(effects, frame, size));
        assert(all.no_duplicates());
    } else {
        assert(more =~= Seq::empty());
        assert(all =~= effects);
    }
    assert forall|f: usize| #[trigger] given_back(all, f, size) == (uses(t0, range, size, f) > 0
        && count(left, f) == 0) by {
        assert(given_back(effects, f, size) == (uses(t0, range, size, f) > 0 && count(frames, f) == 0));
    }
}

/// The same for the first `n` small frames of a huge page.
proof fn lemma_settled_block(
    effects: Seq<Effect>,
    t0: Map<int, PageEntry>,
    range: VirtAddrRange,
    frames: Map<usize, u8>,
    base: usize,
    n: nat,
)
    requires
        settled(effects, t0, range, PageSize::Size4K, frames),
        counts_ok(frames),
        n <= THP_NR_4K_PAGES,
        forall|i: int|
            0 <= i < n ==> uses(t0, range, PageSize::Size4K, #[trigger] sub_frame(base, i)) > 0,
    ensures
        settled(
            effects + all_dropped(frames, base, n),
            t0,
            range,
            PageSize::Size4K,
            all_decremented(frames, base, n),
        ),
        counts_ok(all_decremented(frames, base, n)),
    decreases n,
{
    if n == 0 {
        assert(effects + all_dropped(frames, base, n) =~= effects);
    } else {
        let k = (n - 1) as nat;
        lemma_settled_block(effects, t0, range, frames, base, k);
        let mid = effects + all_dropped(frames, base, k);
        let m = all_decremented(frames, base, k);
        assert(uses(t0, range, PageSize::Size4K, sub_frame(base, k as int)) > 0);
        lemma_settled_one(mid, t0, range, PageSize::Size4K, m, sub_frame(base, k as int));
        assert(effects + all_dropped(frames, base, n) =~= mid + dropped(
            m,
            sub_frame(base, k as int),
            PageSize::Size4K,
        ));
    }
}

/// Frames that are given back leave the page table and memory as they are.
pub proof fn lemma_only_freed(s: Space, effects: Seq<Effect>)
    requires
        forall|i: int| 0 <= i < effects.len() ==> (#[trigger] effects[i]) is FreeFrame,
    ensures
        s.all_performed(effects).table == s.table,
        s.all_performed(effects).copy == s.copy,
        s.all_performed(effects).mem == s.mem,
        s.all_performed(effects).file == s.file,
    decreases effects.len(),
{
    if effects.len() > 0 {
        assert forall|i: int| 0 <= i < effects.drop_last().len() implies (
        #[trigger] effects.drop_last()[i]) is FreeFrame by {
            assert(effects.drop_last()[i] == effects[i]);
        }
        lemma_only_freed(s, effects.drop_last());
        assert(effects[effects.len() - 1] is FreeFrame);
    }
}

pub proof fn lemma_block_only_freed(frames: Map<usize, u8>, base: usize, n: nat)
    ensures
        forall|i: int|
            0 <= i < all_dropped(frames, base, n).len() ==> (#[trigger] all_dropped(
                frames,
                base,
                n,
            )[i]) is FreeFrame,
    decreases n,
{
    if n > 0 {
        lemma_block_only_freed(frames, base, (n - 1) as nat);
    }
}

/// A page in the range that is mapped now was mapped to the same frame before.
proof fn lemma_was_used(
    t: Map<int, PageEntry>,
    t0: Map<int, PageEntry>,
    range: VirtAddrRange,
    size: PageSize,
    va: int,
    frame: usize,
)
    requires
        cleared(t, t0, range, va),
        uses(t, range, size, frame) > 0,
    ensures
        uses(t0, range, size, frame) > 0,
{
    let u = users(t, range, size, frame);
    crate::mm::space::lemma_users_finite(t, range, size, frame);
    let p = u.choose();
    assert(u.contains(p)) by {
        if forall|q: int| !u.contains(q) {
            assert(u =~= Set::empty());
        }
    }
    assert(t.dom().contains(p));
    assert(alike(t, t0, p));
    lemma_used(t0, range, size, frame, p);
}

/// Turning to the next address.
proof fn lemma_enters(
    b: UnmapRun,
    m: CowUnmap,
    va: int,
    backend: CowBackend,
    range: VirtAddrRange,
    space: Space,
    elsewhere: spec_fn(usize) -> nat,
)
    requires
        range.wf(),
        range.aligned_to(backend.size),
        m.size == backend.size,
        m.range == range,
        range.start <= va <= range.end,
        va % backend.size.bytes() as int == 0,
        b.machine == m.entering(va, b.frames).next,
        b.turn == Some(m.entering(va, b.frames).turn),
        table_ok(b.space.table),
        tiled(b.space.table, range, backend.size),
        counts_ok(b.frames),
        b.space.mem == space.mem,
        settled(b.effects, space.table, range, backend.size, b.frames),
        accounted(b.space.table, range, backend.size, b.frames, elsewhere),
        cleared(b.space.table, space.table, range, va),
    ensures
        unmap_invariant(b, backend, range, space, elsewhere),
{
}

/// A stage of an unmapping is followed by a stage of it.
#[verifier::rlimit(60)]
proof fn lemma_unmap_moves(
    a: UnmapRun,
    b: UnmapRun,
    backend: CowBackend,
    range: VirtAddrRange,
    space: Space,
    elsewhere: spec_fn(usize) -> nat,
)
    requires
        range.wf(),
        range.aligned_to(backend.size),
        unmap_invariant(a, backend, range, space, elsewhere),
        unmap_moves(a, b),
    ensures
        unmap_invariant(b, backend, range, space, elsewhere),
{
    let m = a.machine;
    let t = a.space.table;
    let t0 = space.table;
    let size = backend.size;
    match a.turn {
        None => {
            assert(a.effects + Seq::<Effect>::empty() =~= a.effects);
            assert(a.space.all_performed(Seq::empty()) == a.space);
            lemma_enters(b, m, range.start as int, backend, range, space, elsewhere);
        },
        Some(Turn::Ask(request)) => {
            let (reply, answered) = choose|reply: Reply, s: Space| #[trigger]
                a.space.answers(request, reply, s) && b == unmap_resumed(a, reply, s);
            let p = number(m.va);
            assert(answered.all_performed(Seq::empty()) == answered);
            assert(a.effects + Seq::<Effect>::empty() =~= a.effects);
            lemma_block_at(m.va, size, p);
            lemma_fits(m.va, range, size);
            assert(within(range, p));
            match m.state {
                CowUnmapState::AwaitEntry => {
                    if t.dom().contains(p) {
                        let found = t[p].size;
                        if !(found is Size2M && size is Size4K) {
                            let frame = t[p].paddr as usize;
                            let more = dropped(a.frames, frame, size);
                            lemma_one_counted_off(t, range, size, a.frames, elsewhere, m.va);
                            lemma_was_used(t, t0, range, size, m.va as int, frame);
                            lemma_settled_one(a.effects, t0, range, size, a.frames, frame);
                            lemma_only_freed(answered, more);
                        }
                    } else {
                        let va = m.va + size.bytes();
                        assert forall|q: int|
                            if within(range, q) && q * PAGE_SIZE_4K < va {
                                !#[trigger] t.dom().contains(q)
                            } else {
                                alike(t, t0, q)
                            } by {
                            if m.va <= q * PAGE_SIZE_4K < va && t.dom().contains(q) && within(range, q) {
                                lemma_block_at(m.va, size, q);
                                if t[q].size == size {
                                    assert(same_block(q, p, t[q].size));
                                } else {
                                    assert(size is Size4K);
                                }
                            }
                        }
                        lemma_enters(b, m, va as int, backend, range, space, elsewhere);
                    }
                },
                CowUnmapState::AwaitHuge => {
                    let base = t[p].paddr as usize;
                    let n = THP_NR_4K_PAGES as nat;
                    let more = all_dropped(a.frames, base, n);
                    lemma_block_counted_off(t, range, a.frames, elsewhere, m.va);
                    assert forall|i: int| 0 <= i < n implies uses(
                        t0,
                        range,
                        size,
                        #[trigger] sub_frame(base, i),
                    ) > 0 by {
                        lemma_was_used(t, t0, range, size, m.va as int, sub_frame(base, i));
                    }
                    lemma_settled_block(a.effects, t0, range, a.frames, base, n);
                    lemma_block_only_freed(a.frames, base, n);
                    lemma_only_freed(answered, more);
                },
                CowUnmapState::AwaitSplit => {
                    lemma_divided(t, p);
                    let u = divided(t, p);
                    assert forall|f: usize| #[trigger]
                        count(a.frames, f) == elsewhere(f) + uses(u, range, size, f) by {
                        assert(users(u, range, size, f) =~= users(t, range, size, f));
                    }
                    assert forall|q: int|
                        if within(range, q) && q * PAGE_SIZE_4K < m.va {
                            !#[trigger] u.dom().contains(q)
                        } else {
                            alike(u, t0, q)
                        } by {
                        assert(t.dom().contains(q) == u.dom().contains(q));
                        assert(alike(u, t, q));
                    }
                    lemma_enters(b, m, m.va as int, backend, range, space, elsewhere);
                },
                CowUnmapState::AwaitUnmap => {
                    lemma_taken(t, p);
                    let u = taken(t, p);
                    let va = m.va + m.step.bytes();
                    assert forall|q: int|
                        if within(range, q) && q * PAGE_SIZE_4K < va {
                            !#[trigger] u.dom().contains(q)
                        } else {
                            alike(u, t0, q)
                        } by {
                        lemma_block_at(m.va, m.step, q);
                        assert(t.dom().contains(q) || !t.dom().contains(q));
                        if !same_block(p, q, t[p].size) {
                            assert(alike(u, t, q));
                        }
                    }
                    assert(va as int % size.bytes() as int == 0);
                    lemma_enters(b, m, va as int, backend, range, space, elsewhere);
                },
                _ => {},
            }
        },
        Some(Turn::Finished(_)) => {},
    }
}

proof fn lemma_unmap_stages(
    stages: Seq<UnmapRun>,
    i: int,
    backend: CowBackend,
    range: VirtAddrRange,
    space: Space,
    elsewhere: spec_fn(usize) -> nat,
)
    requires
        range.wf(),
        range.aligned_to(backend.size),
        unmap_runs(stages),
        0 <= i < stages.len(),
        unmap_invariant(stages[0], backend, range, space, elsewhere),
    ensures
        unmap_invariant(stages[i], backend, range, space, elsewhere),
    decreases i,
{
    if i > 0 {
        lemma_unmap_stages(stages, i - 1, backend, range, space, elsewhere);
        assert(unmap_moves(stages[i - 1], stages[i - 1 + 1]));
        lemma_unmap_moves(stages[i - 1], stages[i], backend, range, space, elsewhere);
    }
}

/// The start of an unmapping is a stage of it.
proof fn lemma_unmap_starts(
    start: UnmapRun,
    backend: CowBackend,
    range: VirtAddrRange,
    frames: Map<usize, u8>,
    space: Space,
    elsewhere: spec_fn(usize) -> nat,
)
    requires
        unmappable(backend, range, frames, space.table, elsewhere),
        start.machine.size == backend.size,
        start.machine.range == range,
        start.machine.va == range.start,
        start.machine.state is Begin,
        start.frames == frames,
        start.space == space,
        start.effects == Seq::<Effect>::empty(),
        start.turn is None,
    ensures
        unmap_invariant(start, backend, range, space, elsewhere),
{
    assert forall|frame: usize| #[trigger] given_back(start.effects, frame, backend.size) == (uses(
        space.table,
        range,
        backend.size,
        frame,
    ) > 0 && count(frames, frame) == 0) by {
        assert(count(frames, frame) == elsewhere(frame) + uses(space.table, range, backend.size, frame));
    }
}

/// What the end of an unmapping comes to.
proof fn lemma_unmap_ends(
    end: UnmapRun,
    backend: CowBackend,
    range: VirtAddrRange,
    space: Space,
    elsewhere: spec_fn(usize) -> nat,
)
    requires
        unmap_invariant(end, backend, range, space, elsewhere),
        end.turn matches Some(Turn::Finished(_)),
    ensures
        end.turn matches Some(Turn::Finished(Ok(_))),
        forall|p: int| within(range, p) ==> !#[trigger] end.space.table.dom().contains(p),
        forall|p: int| !within(range, p) ==> #[trigger] alike(end.space.table, space.table, p),
        end.effects.no_duplicates(),
        forall|frame: usize| #[trigger]
            given_back(end.effects, frame, backend.size) == (uses(
                space.table,
                range,
                backend.size,
                frame,
            ) > 0 && elsewhere(frame) == 0),
        forall|frame: usize| #[trigger] count(end.frames, frame) == elsewhere(frame),
{
    let t = end.space.table;
    assert forall|p: int| within(range, p) implies !#[trigger] t.dom().contains(p) by {}
    assert forall|p: int| !within(range, p) implies #[trigger] alike(t, space.table, p) by {
        assert(t.dom().contains(p) || !t.dom().contains(p));
    }
    assert forall|frame: usize| #[trigger] count(end.frames, frame) == elsewhere(frame) by {
        assert(users(t, range, backend.size, frame) =~= Set::empty());
    }
}

/// An unmapping leaves nothing mapped in its range and every other page as it
/// was. It gives back, once each, exactly those frames that were mapped in the
/// range and are mapped nowhere else, and the counts are right again.
pub proof fn law_unmap_gives_the_frames_back(
    stages: Seq<UnmapRun>,
    backend: CowBackend,
    range: VirtAddrRange,
    m: CowUnmap,
    frames: Map<usize, u8>,
    space: Space,
    elsewhere: spec_fn(usize) -> nat,
)
    requires
        unmappable(backend, range, frames, space.table, elsewhere),
        call_ensures(CowBackend::unmap, (&backend, range), m),
        unmap_runs(stages),
        stages[0] == (UnmapRun { machine: m, frames, space, effects: Seq::empty(), turn: None }),
        stages.last().turn matches Some(Turn::Finished(_)),
    ensures
        stages.last().turn matches Some(Turn::Finished(Ok(_))),
        forall|p: int| within(range, p) ==> !#[trigger] stages.last().space.table.dom().contains(p),
        forall|p: int|
            !within(range, p) ==> #[trigger] alike(stages.last().space.table, space.table, p),
        stages.last().effects.no_duplicates(),
        forall|frame: usize| #[trigger]
            given_back(stages.last().effects, frame, backend.size) == (uses(
                space.table,
                range,
                backend.size,
                frame,
            ) > 0 && elsewhere(frame) == 0),
        forall|frame: usize| #[trigger] count(stages.last().frames, frame) == elsewhere(frame),
{
    lemma_unmap_starts(stages[0], backend, range, frames, space, elsewhere);
    lemma_unmap_stages(stages, stages.len() - 1, backend, range, space, elsewhere);
    lemma_unmap_ends(stages.last(), backend, range, space, elsewhere);
}

} // verus!
