//! A copy of private memory shares its frames, and neither can write them.

use vstd::prelude::*;
use crate::addr::{whole_huge, PageSize, VirtAddrRange, PAGE_SIZE_2M, PAGE_SIZE_4K, THP_NR_4K_PAGES};
use crate::effect::{Reply, Request, Turn};
use crate::flags::MappingFlags;
use crate::mm::cow::CowBackend;
use crate::mm::cow_clone::{CowClone, CowCloneState};
use crate::mm::cow_populate_law::{sound, taken_up};
use crate::mm::frames::{
    all_incremented, block_has_room, count, counts_ok, incremented, lemma_all_incremented, sub_frame,
};
use crate::mm::space::{
    accounted, alike, divided, leads, lemma_block_at, lemma_divided, lemma_fits, lemma_placed,
    lemma_placed_uses, lemma_protected, lemma_user_come, number, placed, protected, same_block,
    small_pages, table_ok, tiled, users, uses, within, Space, PageEntry,
};

verus! {

/// A duplication in its space: where it stands, and what it waits for or ended
/// with.
pub struct CloneRun {
    pub machine: CowClone,
    pub frames: Map<usize, u8>,
    pub space: Space,
    pub turn: Option<Turn<CowBackend>>,
}

/// The duplication after a reply from the space `space`.
pub open spec fn clone_resumed(a: CloneRun, reply: Reply, space: Space) -> CloneRun {
    let s = a.machine.after(a.frames, reply);
    CloneRun {
        machine: s.next,
        frames: s.frames,
        space: space.all_performed(s.effects),
        turn: Some(s.turn),
    }
}

/// Whether a duplication can go from `a` to `b`: it starts, or its request is
/// answered.
pub open spec fn clone_moves(a: CloneRun, b: CloneRun) -> bool {
    match a.turn {
        None => b == clone_resumed(a, Reply::Start, a.space),
        Some(Turn::Ask(request)) => exists|reply: Reply, space: Space| #[trigger]
            a.space.answers(request, reply, space) && b == clone_resumed(a, reply, space),
        Some(Turn::Finished(_)) => false,
    }
}

/// Whether a duplication goes through the given stages.
pub open spec fn clone_runs(stages: Seq<CloneRun>) -> bool {
    &&& stages.len() > 0
    &&& forall|i: int| 0 <= i < stages.len() - 1 ==> clone_moves(#[trigger] stages[i], stages[i + 1])
}

/// Whether a small page is mapped to the same memory in both page tables as
/// before, with the given rights.
pub open spec fn shared_at(before: Space, after: Space, flags: MappingFlags, p: int) -> bool {
    &&& after.table.dom().contains(p) == before.table.dom().contains(p)
    &&& after.copy.dom().contains(p) == before.table.dom().contains(p)
    &&& before.table.dom().contains(p) ==> {
        &&& after.table[p].paddr == before.table[p].paddr
        &&& after.copy[p].paddr == before.table[p].paddr
        &&& after.table[p].flags == flags
        &&& after.copy[p].flags == flags
    }
}

/// Whether a small page is mapped in both page tables as before.
pub open spec fn both_alike(before: Space, after: Space, p: int) -> bool {
    alike(after.table, before.table, p) && alike(after.copy, before.copy, p)
}

/// Whether the pages of a range below an address are shared, and all others
/// mapped as they were.
pub open spec fn shared_below(
    before: Space,
    after: Space,
    range: VirtAddrRange,
    flags: MappingFlags,
    va: int,
) -> bool {
    &&& forall|p: int|
        within(range, p) && p * PAGE_SIZE_4K < va ==> #[trigger] shared_at(before, after, flags, p)
    &&& forall|p: int|
        !(within(range, p) && p * PAGE_SIZE_4K < va) ==> #[trigger] both_alike(before, after, p)
}

/// Whether the counts are right: those of both page tables and those elsewhere.
pub open spec fn both_accounted(
    t: Map<int, PageEntry>,
    c: Map<int, PageEntry>,
    range: VirtAddrRange,
    size: PageSize,
    frames: Map<usize, u8>,
    elsewhere: spec_fn(usize) -> nat,
) -> bool {
    forall|frame: usize| #[trigger]
        count(frames, frame) == elsewhere(frame) + uses(t, range, size, frame) + uses(
            c,
            range,
            size,
            frame,
        )
}

/// What a duplication is asked for.
pub struct CloneWish {
    pub backend: CowBackend,
    pub range: VirtAddrRange,
    pub flags: MappingFlags,
}

impl CloneWish {
    /// Whether a duplication can be asked for in a space: the memory is sound, the
    /// copy has nothing in the range, and every frame can be counted once more for
    /// each use.
    pub open spec fn ok(
        self,
        before: Space,
        frames: Map<usize, u8>,
        elsewhere: spec_fn(usize) -> nat,
    ) -> bool {
        let size = self.backend.size;
        &&& self.range.wf()
        &&& self.range.aligned_to(size)
        &&& sound(before, self.range, size, frames, elsewhere)
        &&& table_ok(before.copy)
        &&& forall|p: int| within(self.range, p) ==> !#[trigger] before.copy.dom().contains(p)
        &&& forall|frame: usize| #[trigger]
            elsewhere(frame) + 2 * uses(before.table, self.range, size, frame) <= u8::MAX
    }

    /// Whether a duplication has come to an address.
    pub open spec fn reached(
        self,
        frames: Map<usize, u8>,
        before: Space,
        s: Space,
        va: int,
        elsewhere: spec_fn(usize) -> nat,
    ) -> bool {
        let size = self.backend.size;
        &&& self.kept(before, s, va)
        &&& counts_ok(frames)
        &&& both_accounted(s.table, s.copy, self.range, size, frames, elsewhere)
    }

    /// Whether the pages below an address are shared and nothing else changed.
    pub open spec fn kept(self, before: Space, s: Space, va: int) -> bool {
        let size = self.backend.size;
        &&& table_ok(s.table)
        &&& table_ok(s.copy)
        &&& tiled(s.table, self.range, size)
        &&& tiled(s.copy, self.range, size)
        &&& shared_below(before, s, self.range, self.flags.read_only(), va)
        &&& s.mem == before.mem
        &&& s.free == before.free
        &&& s.file == before.file
    }

    /// The space in which the page at an address is shared.
    pub open spec fn sharing(self, s: Space, va: usize, paddr: usize, step: PageSize) -> Space {
        let ro = self.flags.read_only();
        Space {
            table: protected(s.table, number(va), ro),
            copy: placed(s.copy, number(va), paddr as int, step, ro),
            ..s
        }
    }

    /// Whether the page at an address is one of the page table, and in the range.
    pub open spec fn block_at(
        self,
        t: Map<int, PageEntry>,
        va: usize,
        paddr: usize,
        step: PageSize,
    ) -> bool {
        let p = number(va);
        &&& t.dom().contains(p)
        &&& t[p].size == step
        &&& t[p].paddr == paddr
        &&& va as int % step.bytes() as int == 0
        &&& va + step.bytes() <= self.range.end
        &&& step == self.backend.size || (self.backend.size is Size4K && step is Size2M)
    }
}

/// What holds at every stage of a duplication.
pub open spec fn clone_invariant(
    r: CloneRun,
    w: CloneWish,
    before: Space,
    elsewhere: spec_fn(usize) -> nat,
) -> bool {
    let m = r.machine;
    let t = r.space.table;
    let c = r.space.copy;
    let size = w.backend.size;
    let p = number(m.va);
    let ro = w.flags.read_only();
    &&& m.backend == w.backend
    &&& m.range == w.range
    &&& m.cow_flags == ro
    &&& match r.turn {
        None => m.state is Begin && m.va == w.range.start && r.space == before && accounted(
            before.table,
            w.range,
            size,
            r.frames,
            elsewhere,
        ) && counts_ok(r.frames),
        Some(Turn::Ask(request)) => {
            &&& w.range.start <= m.va < w.range.end
            &&& m.va as int % size.bytes() as int == 0
            &&& match m.state {
                CowCloneState::AwaitEntry => {
                    &&& request == (Request::Query { va: m.va })
                    &&& w.reached(r.frames, before, r.space, m.va as int, elsewhere)
                },
                CowCloneState::AwaitHuge => {
                    &&& request == (Request::Query { va: m.va })
                    &&& w.reached(r.frames, before, r.space, m.va as int, elsewhere)
                    &&& size is Size4K
                    &&& t.dom().contains(p)
                    &&& t[p].size is Size2M
                    &&& m.step is Size2M
                    &&& whole_huge(m.va, w.range.end)
                },
                CowCloneState::AwaitSplit => {
                    &&& request == (Request::SplitHuge { va: m.va })
                    &&& w.reached(r.frames, before, r.space, m.va as int, elsewhere)
                    &&& size is Size4K
                    &&& t.dom().contains(p)
                    &&& t[p].size is Size2M
                },
                CowCloneState::AwaitProtect => {
                    &&& request == (Request::Protect { va: m.va, flags: ro })
                    &&& w.block_at(t, m.va, m.paddr, m.step)
                    &&& w.reached(
                        r.frames,
                        before,
                        w.sharing(r.space, m.va, m.paddr, m.step),
                        m.va + m.step.bytes(),
                        elsewhere,
                    )
                },
                CowCloneState::AwaitMap => {
                    &&& request == (Request::MapInCopy {
                        va: m.va,
                        paddr: m.paddr,
                        size: m.step,
                        flags: ro,
                    })
                    &&& m.va + m.step.bytes() <= w.range.end
                    &&& m.step == size || (size is Size4K && m.step is Size2M)
                    &&& w.reached(
                        r.frames,
                        before,
                        Space { copy: placed(c, p, m.paddr as int, m.step, ro), ..r.space },
                        m.va + m.step.bytes(),
                        elsewhere,
                    )
                },
                _ => false,
            }
        },
        Some(Turn::Finished(result)) => result == Ok::<CowBackend, crate::error::AxError>(w.backend)
            && w.reached(r.frames, before, r.space, w.range.end as int, elsewhere),
    }
}

/// How a frame is used after a huge page was placed where nothing was.
pub proof fn lemma_huge_placed_uses(
    c: Map<int, PageEntry>,
    range: VirtAddrRange,
    va: usize,
    paddr: usize,
    flags: MappingFlags,
    f: usize,
)
    requires
        va as int % PAGE_SIZE_2M as int == 0,
        range.start <= va,
        va + PAGE_SIZE_2M <= range.end,
        paddr + PAGE_SIZE_2M <= usize::MAX,
        forall|q: int|
            same_block(number(va), q, PageSize::Size2M) ==> !#[trigger] c.dom().contains(q),
    ensures
        uses(
            placed(c, number(va), paddr as int, PageSize::Size2M, flags),
            range,
            PageSize::Size4K,
            f,
        ) == uses(c, range, PageSize::Size4K, f) + if exists|i: int|
            0 <= i < THP_NR_4K_PAGES && f == #[trigger] sub_frame(paddr, i) {
            1int
        } else {
            0
        },
{
    let size = PageSize::Size4K;
    let p = number(va);
    let u = placed(c, p, paddr as int, PageSize::Size2M, flags);
    assert forall|q: int| #[trigger] same_block(p, q, PageSize::Size2M) == (p <= q < p + 512) by {
        lemma_block_at(va, PageSize::Size2M, q);
    }
    lemma_block_at(va, PageSize::Size2M, p);
    assert(forall|q: int| #[trigger] leads(q, size));
    if exists|i: int| 0 <= i < THP_NR_4K_PAGES && f == #[trigger] sub_frame(paddr, i) {
        let i = choose|i: int| 0 <= i < THP_NR_4K_PAGES && f == #[trigger] sub_frame(paddr, i);
        assert forall|q: int| #[trigger] users(u, range, size, f).contains(q) == users(
            c,
            range,
            size,
            f,
        ).insert(p + i).contains(q) by {
            assert(leads(q, size));
            if q == p + i {
                assert(same_block(p, q, PageSize::Size2M));
            }
        }
        assert(users(u, range, size, f) =~= users(c, range, size, f).insert(p + i));
        assert(!users(c, range, size, f).contains(p + i)) by {
            assert(same_block(p, p + i, PageSize::Size2M));
        }
        lemma_user_come(c, u, range, size, f, p + i);
    } else {
        assert forall|q: int| #[trigger] users(u, range, size, f).contains(q) == users(
            c,
            range,
            size,
            f,
        ).contains(q) by {
            if same_block(p, q, PageSize::Size2M) {
                assert(u[q].paddr == sub_frame(paddr, q - p));
            }
        }
        assert(users(u, range, size, f) =~= users(c, range, size, f));
    }
}

/// A page is shared.
proof fn lemma_shared(
    w: CloneWish,
    frames: Map<usize, u8>,
    before: Space,
    s: Space,
    va: usize,
    paddr: usize,
    step: PageSize,
    elsewhere: spec_fn(usize) -> nat,
)
    requires
        w.ok(before, frames, elsewhere),
        w.range.start <= va,
        w.kept(before, s, va as int),
        w.block_at(s.table, va, paddr, step),
    ensures
        w.kept(before, w.sharing(s, va, paddr, step), va + step.bytes()),
        paddr + step.bytes() <= usize::MAX,
        leads(number(va), step),
        within(w.range, number(va)),
        forall|q: int| same_block(number(va), q, step) ==> !#[trigger] s.copy.dom().contains(q),
{
    let t = s.table;
    let c = s.copy;
    let p = number(va);
    let ro = w.flags.read_only();
    let after = w.sharing(s, va, paddr, step);
    let next = va + step.bytes();
    assert(step.bytes() == small_pages(step) * PAGE_SIZE_4K);
    lemma_block_at(va, step, p);
    assert forall|q: int| #[trigger] same_block(p, q, step) == (va <= q * PAGE_SIZE_4K < next) by {
        lemma_block_at(va, step, q);
    }
    assert forall|q: int| same_block(p, q, step) implies !#[trigger] c.dom().contains(q) by {
        assert(both_alike(before, s, q));
        assert(!before.copy.dom().contains(q));
    }
    let last = p + small_pages(step) - 1;
    assert(same_block(p, last, t[p].size));
    assert(t.dom().contains(last));
    assert(t[last].paddr - t[p].paddr == (last - p) * PAGE_SIZE_4K);
    lemma_protected(t, p, ro);
    lemma_placed(c, p, paddr as int, step, ro);
    assert forall|q: int| within(w.range, q) && q * PAGE_SIZE_4K < next implies #[trigger] shared_at(
        before,
        after,
        ro,
        q,
    ) by {
        if same_block(p, q, step) {
            assert(same_block(p, q, t[p].size));
            assert(both_alike(before, s, q));
        } else {
            assert(shared_at(before, s, ro, q));
        }
    }
    assert forall|q: int| !(within(w.range, q) && q * PAGE_SIZE_4K < next) implies #[trigger] both_alike(
        before,
        after,
        q,
    ) by {
        assert(both_alike(before, s, q));
        assert(!same_block(p, q, step));
    }
    assert(tiled(after.table, w.range, w.backend.size)) by {
        assert forall|q: int| #[trigger]
            after.table.dom().contains(q) && within(w.range, q) implies after.table[q].size
            == w.backend.size || (w.backend.size is Size4K && after.table[q].size is Size2M) by {
            assert(t.dom().contains(q));
        }
    }
    assert(tiled(after.copy, w.range, w.backend.size)) by {
        assert forall|q: int| #[trigger]
            after.copy.dom().contains(q) && within(w.range, q) implies after.copy[q].size
            == w.backend.size || (w.backend.size is Size4K && after.copy[q].size is Size2M) by {
            if !same_block(p, q, step) {
                assert(c.dom().contains(q));
            }
        }
    }
}

/// A frame that can be counted once more for each use has room for one more.
proof fn lemma_room(
    w: CloneWish,
    start: Map<usize, u8>,
    frames: Map<usize, u8>,
    before: Space,
    s: Space,
    va: int,
    elsewhere: spec_fn(usize) -> nat,
    frame: usize,
    p: int,
)
    requires
        w.ok(before, start, elsewhere),
        w.reached(frames, before, s, va, elsewhere),
        users(s.table, w.range, w.backend.size, frame).contains(p),
        va <= p * PAGE_SIZE_4K,
    ensures
        count(frames, frame) < u8::MAX,
{
    let size = w.backend.size;
    let now = users(s.table, w.range, size, frame);
    let then = users(before.table, w.range, size, frame);
    let copied = users(s.copy, w.range, size, frame);
    crate::mm::space::lemma_users_finite(before.table, w.range, size, frame);
    assert forall|q: int| #[trigger] now.contains(q) == then.contains(q) by {
        if within(w.range, q) {
            if q * PAGE_SIZE_4K < va {
                assert(shared_at(before, s, w.flags.read_only(), q));
            } else {
                assert(both_alike(before, s, q));
            }
        }
    }
    assert(now =~= then);
    assert forall|q: int| #[trigger] copied.contains(q) implies then.remove(p).contains(q) by {
        if q * PAGE_SIZE_4K < va {
            assert(shared_at(before, s, w.flags.read_only(), q));
        } else {
            assert(both_alike(before, s, q));
            assert(!before.copy.dom().contains(q));
        }
    }
    vstd::set_lib::lemma_len_subset(copied, then.remove(p));
    assert(count(frames, frame) == elsewhere(frame) + uses(s.table, w.range, size, frame) + uses(
        s.copy,
        w.range,
        size,
        frame,
    ));
    assert(elsewhere(frame) + 2 * uses(before.table, w.range, size, frame) <= u8::MAX);
}

/// The rights of a page do not change how frames are used.
proof fn lemma_protected_uses(
    t: Map<int, PageEntry>,
    p: int,
    flags: MappingFlags,
    range: VirtAddrRange,
    size: PageSize,
    f: usize,
)
    ensures
        uses(protected(t, p, flags), range, size, f) == uses(t, range, size, f),
{
    assert(users(protected(t, p, flags), range, size, f) =~= users(t, range, size, f));
}

/// A page is counted once more for the copy.
proof fn lemma_one_counted(
    w: CloneWish,
    start: Map<usize, u8>,
    frames: Map<usize, u8>,
    before: Space,
    s: Space,
    va: usize,
    elsewhere: spec_fn(usize) -> nat,
)
    requires
        w.ok(before, start, elsewhere),
        w.range.start <= va < w.range.end,
        va as int % w.backend.size.bytes() as int == 0,
        w.reached(frames, before, s, va as int, elsewhere),
        s.table.dom().contains(number(va)),
        s.table[number(va)].size == w.backend.size,
    ensures
        ({
            let paddr = s.table[number(va)].paddr as usize;
            let size = w.backend.size;
            &&& w.block_at(s.table, va, paddr, size)
            &&& w.reached(
                incremented(frames, paddr),
                before,
                w.sharing(s, va, paddr, size),
                va + size.bytes(),
                elsewhere,
            )
        }),
{
    let t = s.table;
    let p = number(va);
    let size = w.backend.size;
    let paddr = t[p].paddr as usize;
    let ro = w.flags.read_only();
    let after = w.sharing(s, va, paddr, size);
    let more = incremented(frames, paddr);
    lemma_fits(va, w.range, size);
    lemma_shared(w, start, before, s, va, paddr, size, elsewhere);
    lemma_block_at(va, size, p);
    assert(users(t, w.range, size, paddr).contains(p));
    lemma_room(w, start, frames, before, s, va as int, elsewhere, paddr, p);
    assert forall|f: usize| #[trigger] count(more, f) == elsewhere(f) + uses(
        after.table,
        w.range,
        size,
        f,
    ) + uses(after.copy, w.range, size, f) by {
        lemma_protected_uses(t, p, ro, w.range, size, f);
        lemma_placed_uses(s.copy, w.range, p, paddr, size, ro, f);
        assert(same_block(p, p, size));
        assert(!s.copy.dom().contains(p));
        assert(count(frames, f) == elsewhere(f) + uses(t, w.range, size, f) + uses(
            s.copy,
            w.range,
            size,
            f,
        ));
    }
}

/// The small frames of a huge page are counted once more for the copy.
proof fn lemma_block_counted(
    w: CloneWish,
    start: Map<usize, u8>,
    frames: Map<usize, u8>,
    before: Space,
    s: Space,
    va: usize,
    elsewhere: spec_fn(usize) -> nat,
)
    requires
        w.ok(before, start, elsewhere),
        w.backend.size is Size4K,
        w.range.start <= va,
        va + PAGE_SIZE_2M <= w.range.end,
        va as int % PAGE_SIZE_2M as int == 0,
        w.reached(frames, before, s, va as int, elsewhere),
        s.table.dom().contains(number(va)),
        s.table[number(va)].size is Size2M,
    ensures
        ({
            let paddr = s.table[number(va)].paddr as usize;
            &&& w.block_at(s.table, va, paddr, PageSize::Size2M)
            &&& w.reached(
                all_incremented(frames, paddr, THP_NR_4K_PAGES as nat),
                before,
                w.sharing(s, va, paddr, PageSize::Size2M),
                va + PAGE_SIZE_2M,
                elsewhere,
            )
        }),
{
    let t = s.table;
    let p = number(va);
    let size = PageSize::Size4K;
    let paddr = t[p].paddr as usize;
    let ro = w.flags.read_only();
    let after = w.sharing(s, va, paddr, PageSize::Size2M);
    let n = THP_NR_4K_PAGES as nat;
    let more = all_incremented(frames, paddr, n);
    lemma_shared(w, start, before, s, va, paddr, PageSize::Size2M, elsewhere);
    assert forall|i: int| 0 <= i < n implies count(frames, #[trigger] sub_frame(paddr, i)) < u8::MAX by {
        let q = p + i;
        lemma_block_at(va, PageSize::Size2M, q);
        assert(same_block(p, q, t[p].size));
        assert(t[q].paddr - t[p].paddr == (q - p) * PAGE_SIZE_4K);
        assert(leads(q, size));
        assert(users(t, w.range, size, sub_frame(paddr, i)).contains(q));
        lemma_room(w, start, frames, before, s, va as int, elsewhere, sub_frame(paddr, i), q);
    }
    lemma_all_incremented(frames, paddr, n);
    lemma_all_counted(frames, paddr, n);
    assert forall|f: usize| #[trigger] count(more, f) == elsewhere(f) + uses(
        after.table,
        w.range,
        size,
        f,
    ) + uses(after.copy, w.range, size, f) by {
        lemma_protected_uses(t, p, ro, w.range, size, f);
        lemma_huge_placed_uses(s.copy, w.range, va, paddr, ro, f);
        assert(count(frames, f) == elsewhere(f) + uses(t, w.range, size, f) + uses(
            s.copy,
            w.range,
            size,
            f,
        ));
        if exists|i: int| 0 <= i < THP_NR_4K_PAGES && f == #[trigger] sub_frame(paddr, i) {
            let i = choose|i: int| 0 <= i < THP_NR_4K_PAGES && f == #[trigger] sub_frame(paddr, i);
            assert(count(more, sub_frame(paddr, i)) == count(frames, sub_frame(paddr, i)) + 1);
        } else {
            assert(count(more, f) == count(frames, f));
        }
    }
}

/// Counting more mappings leaves every count a positive one.
pub proof fn lemma_all_counted(frames: Map<usize, u8>, base: usize, n: nat)
    requires
        counts_ok(frames),
        n <= THP_NR_4K_PAGES,
        base + PAGE_SIZE_2M <= usize::MAX,
        block_has_room(frames, base),
    ensures
        counts_ok(all_incremented(frames, base, n)),
    decreases n,
{
    if n > 0 {
        let k = (n - 1) as nat;
        lemma_all_counted(frames, base, k);
        lemma_all_incremented(frames, base, k);
        assert(forall|i: int| 0 <= i < k ==> sub_frame(base, k as int) != #[trigger] sub_frame(base, i));
        assert(count(all_incremented(frames, base, k), sub_frame(base, k as int)) == count(
            frames,
            sub_frame(base, k as int),
        ));
        assert(count(frames, sub_frame(base, k as int)) < u8::MAX);
    }
}

/// Turning to an address.
proof fn lemma_enters(
    b: CloneRun,
    m: CowClone,
    va: int,
    w: CloneWish,
    before: Space,
    elsewhere: spec_fn(usize) -> nat,
)
    requires
        w.range.wf(),
        m.backend == w.backend,
        m.range == w.range,
        m.cow_flags == w.flags.read_only(),
        w.range.start <= va <= w.range.end,
        va % w.backend.size.bytes() as int == 0,
        b.machine == m.entering(va, b.frames).next,
        b.turn == Some(m.entering(va, b.frames).turn),
        w.reached(b.frames, before, b.space, va, elsewhere),
    ensures
        clone_invariant(b, w, before, elsewhere),
{
}

/// A stage of a duplication is followed by a stage of it.
#[verifier::rlimit(40)]
proof fn lemma_clone_moves(
    a: CloneRun,
    b: CloneRun,
    w: CloneWish,
    start: Map<usize, u8>,
    before: Space,
    elsewhere: spec_fn(usize) -> nat,
)
    requires
        w.ok(before, start, elsewhere),
        clone_invariant(a, w, before, elsewhere),
        clone_moves(a, b),
    ensures
        clone_invariant(b, w, before, elsewhere),
{
    let m = a.machine;
    let t = a.space.table;
    let size = w.backend.size;
    match a.turn {
        None => {
            assert(a.space.all_performed(Seq::empty()) == a.space);
            lemma_start(a, w, start, before, elsewhere);
            lemma_enters(b, m, w.range.start as int, w, before, elsewhere);
        },
        Some(Turn::Ask(request)) => {
            let (reply, answered) = choose|reply: Reply, s: Space| #[trigger]
                a.space.answers(request, reply, s) && b == clone_resumed(a, reply, s);
            let p = number(m.va);
            assert(answered.all_performed(Seq::empty()) == answered);
            lemma_block_at(m.va, size, p);
            lemma_fits(m.va, w.range, size);
            match m.state {
                CowCloneState::AwaitEntry => {
                    if t.dom().contains(p) {
                        if !(t[p].size is Size2M && size is Size4K) {
                            assert(within(w.range, p));
                            lemma_one_counted(w, start, a.frames, before, a.space, m.va, elsewhere);
                        }
                    } else {
                        let va = m.va + size.bytes();
                        lemma_nothing_there(w, start, before, a.space, m.va, elsewhere);
                        lemma_enters(b, m, va as int, w, before, elsewhere);
                    }
                },
                CowCloneState::AwaitHuge => {
                    lemma_block_counted(w, start, a.frames, before, a.space, m.va, elsewhere);
                },
                CowCloneState::AwaitSplit => {
                    lemma_split_up(w, a.frames, before, a.space, m.va, elsewhere);
                    lemma_enters(b, m, m.va as int, w, before, elsewhere);
                },
                CowCloneState::AwaitProtect => {
                    assert(w.sharing(a.space, m.va, m.paddr, m.step) == (Space {
                        copy: placed(
                            answered.copy,
                            p,
                            m.paddr as int,
                            m.step,
                            w.flags.read_only(),
                        ),
                        ..answered
                    }));
                },
                CowCloneState::AwaitMap => {
                    let va = m.va + m.step.bytes();
                    assert(va as int % size.bytes() as int == 0);
                    lemma_enters(b, m, va as int, w, before, elsewhere);
                },
                _ => {},
            }
        },
        Some(Turn::Finished(_)) => {},
    }
}

/// At the start of a range nothing is shared yet.
proof fn lemma_start(
    a: CloneRun,
    w: CloneWish,
    start: Map<usize, u8>,
    before: Space,
    elsewhere: spec_fn(usize) -> nat,
)
    requires
        w.ok(before, start, elsewhere),
        clone_invariant(a, w, before, elsewhere),
        a.turn is None,
    ensures
        w.reached(a.frames, before, before, w.range.start as int, elsewhere),
{
    let size = w.backend.size;
    assert forall|f: usize| #[trigger] count(a.frames, f) == elsewhere(f) + uses(
        before.table,
        w.range,
        size,
        f,
    ) + uses(before.copy, w.range, size, f) by {
        assert(users(before.copy, w.range, size, f) =~= Set::empty());
    }
    assert(tiled(before.copy, w.range, size));
    assert(shared_below(before, before, w.range, w.flags.read_only(), w.range.start as int));
}

/// Where nothing is mapped there is nothing to share.
proof fn lemma_nothing_there(
    w: CloneWish,
    frames: Map<usize, u8>,
    before: Space,
    s: Space,
    va: usize,
    elsewhere: spec_fn(usize) -> nat,
)
    requires
        w.ok(before, frames, elsewhere),
        w.range.start <= va < w.range.end,
        va as int % w.backend.size.bytes() as int == 0,
        w.kept(before, s, va as int),
        !s.table.dom().contains(number(va)),
    ensures
        w.kept(before, s, va + w.backend.size.bytes()),
{
    let t = s.table;
    let size = w.backend.size;
    let p = number(va);
    let next = va + size.bytes();
    let ro = w.flags.read_only();
    assert forall|q: int| within(w.range, q) && q * PAGE_SIZE_4K < next implies #[trigger] shared_at(
        before,
        s,
        ro,
        q,
    ) by {
        if q * PAGE_SIZE_4K < va {
        } else {
            lemma_block_at(va, size, q);
            assert(both_alike(before, s, q));
            assert(!before.copy.dom().contains(q));
            if t.dom().contains(q) {
                if t[q].size == size {
                    assert(same_block(q, p, t[q].size));
                } else {
                    assert(p / 1 == p && q / 1 == q);
                }
            }
        }
    }
    assert forall|q: int| !(within(w.range, q) && q * PAGE_SIZE_4K < next) implies #[trigger] both_alike(
        before,
        s,
        q,
    ) by {}
}

/// A huge page is divided.
proof fn lemma_split_up(
    w: CloneWish,
    frames: Map<usize, u8>,
    before: Space,
    s: Space,
    va: usize,
    elsewhere: spec_fn(usize) -> nat,
)
    requires
        w.backend.size is Size4K,
        w.reached(frames, before, s, va as int, elsewhere),
        s.table.dom().contains(number(va)),
        s.table[number(va)].size is Size2M,
    ensures
        w.reached(
            frames,
            before,
            Space { table: divided(s.table, number(va)), ..s },
            va as int,
            elsewhere,
        ),
{
    let t = s.table;
    let p = number(va);
    let size = w.backend.size;
    let u = divided(t, p);
    let after = Space { table: u, ..s };
    let ro = w.flags.read_only();
    lemma_divided(t, p);
    assert forall|f: usize| #[trigger] count(frames, f) == elsewhere(f) + uses(u, w.range, size, f)
        + uses(s.copy, w.range, size, f) by {
        assert(users(u, w.range, size, f) =~= users(t, w.range, size, f));
    }
    assert forall|q: int| within(w.range, q) && q * PAGE_SIZE_4K < va implies #[trigger] shared_at(
        before,
        after,
        ro,
        q,
    ) by {
        assert(shared_at(before, s, ro, q));
        assert(alike(u, t, q));
    }
    assert forall|q: int| !(within(w.range, q) && q * PAGE_SIZE_4K < va) implies #[trigger] both_alike(
        before,
        after,
        q,
    ) by {
        assert(both_alike(before, s, q));
        assert(alike(u, t, q));
    }
    assert(tiled(u, w.range, size)) by {
        assert forall|q: int| #[trigger] u.dom().contains(q) && within(w.range, q) implies u[q].size
            == size || (size is Size4K && u[q].size is Size2M) by {
            assert(t.dom().contains(q));
        }
    }
}

proof fn lemma_clone_stages(
    stages: Seq<CloneRun>,
    i: int,
    w: CloneWish,
    start: Map<usize, u8>,
    before: Space,
    elsewhere: spec_fn(usize) -> nat,
)
    requires
        w.ok(before, start, elsewhere),
        clone_runs(stages),
        0 <= i < stages.len(),
        clone_invariant(stages[0], w, before, elsewhere),
    ensures
        clone_invariant(stages[i], w, before, elsewhere),
    decreases i,
{
    if i > 0 {
        lemma_clone_stages(stages, i - 1, w, start, before, elsewhere);
        assert(clone_moves(stages[i - 1], stages[i - 1 + 1]));
        lemma_clone_moves(stages[i - 1], stages[i], w, start, before, elsewhere);
    }
}

/// Rights without writing do not allow to write.
pub proof fn lemma_read_only(flags: MappingFlags)
    ensures
        !flags.read_only().writable(),
{
    let bits = flags.bits;
    assert((bits & !2usize) & 2usize != 2usize) by (bit_vector);
}

/// What the end of a duplication comes to.
proof fn lemma_clone_ends(
    end: CloneRun,
    w: CloneWish,
    start: Map<usize, u8>,
    before: Space,
    elsewhere: spec_fn(usize) -> nat,
)
    requires
        w.ok(before, start, elsewhere),
        clone_invariant(end, w, before, elsewhere),
        end.turn matches Some(Turn::Finished(_)),
    ensures
        end.turn == Some(
            Turn::Finished(Ok::<CowBackend, crate::error::AxError>(w.backend)),
        ),
        ({
            let after = end.space;
            let size = w.backend.size;
            &&& forall|p: int|
                within(w.range, p) ==> #[trigger] shared_at(before, after, w.flags.read_only(), p)
            &&& forall|p: int| !within(w.range, p) ==> #[trigger] both_alike(before, after, p)
            &&& after.mem == before.mem
            &&& sound(
                after,
                w.range,
                size,
                end.frames,
                |f: usize| elsewhere(f) + uses(after.copy, w.range, size, f),
            )
            &&& sound(
                Space { table: after.copy, ..after },
                w.range,
                size,
                end.frames,
                |f: usize| elsewhere(f) + uses(after.table, w.range, size, f),
            )
        }),
{
    let after = end.space;
    let size = w.backend.size;
    let other = Space { table: after.copy, ..after };
    let ro = w.flags.read_only();
    lemma_read_only(w.flags);
    assert forall|p: int| within(w.range, p) implies #[trigger] shared_at(before, after, ro, p) by {}
    assert forall|f: usize| #[trigger] count(end.frames, f) > 0 implies !after.free.contains(f as int) by {
        assert(count(end.frames, f) == elsewhere(f) + uses(after.table, w.range, size, f) + uses(
            after.copy,
            w.range,
            size,
            f,
        ));
        assert(count(start, f) == elsewhere(f) + uses(before.table, w.range, size, f));
        assert(users(after.table, w.range, size, f) =~= users(before.table, w.range, size, f)) by {
            assert forall|q: int| #[trigger] users(after.table, w.range, size, f).contains(q) == users(
                before.table,
                w.range,
                size,
                f,
            ).contains(q) by {
                if within(w.range, q) {
                    assert(shared_at(before, after, ro, q));
                }
            }
        }
        assert(users(after.copy, w.range, size, f) =~= users(before.table, w.range, size, f)) by {
            assert forall|q: int| #[trigger] users(after.copy, w.range, size, f).contains(q) == users(
                before.table,
                w.range,
                size,
                f,
            ).contains(q) by {
                if within(w.range, q) {
                    assert(shared_at(before, after, ro, q));
                }
            }
        }
        assert(count(start, f) > 0);
    }
    assert forall|p: int| #[trigger] after.table.dom().contains(p) && within(w.range, p) implies taken_up(
        after,
        p,
    ) && !after.table[p].flags.writable() by {
        assert(shared_at(before, after, ro, p));
        assert(taken_up(before, p));
    }
    assert forall|p: int| #[trigger] other.table.dom().contains(p) && within(w.range, p) implies taken_up(
        other,
        p,
    ) && !other.table[p].flags.writable() by {
        assert(shared_at(before, after, ro, p));
        assert(taken_up(before, p));
    }
    let e1 = |f: usize| elsewhere(f) + uses(after.copy, w.range, size, f);
    let e2 = |f: usize| elsewhere(f) + uses(after.table, w.range, size, f);
    assert(accounted(after.table, w.range, size, end.frames, e1));
    assert(accounted(after.copy, w.range, size, end.frames, e2));
    assert(sound(after, w.range, size, end.frames, e1));
    assert(sound(other, w.range, size, end.frames, e2));
    assert forall|p: int| !within(w.range, p) implies #[trigger] both_alike(before, after, p) by {}
}

/// A duplication maps every page of its range to the same memory in both places,
/// without the right to write, and leaves all other pages and all memory as they
/// were. The private memory of both places is sound, so a page is copied before
/// it is written in either.
pub proof fn law_clone_shares_the_frames(
    stages: Seq<CloneRun>,
    w: CloneWish,
    m: CowClone,
    frames: Map<usize, u8>,
    before: Space,
    elsewhere: spec_fn(usize) -> nat,
)
    requires
        w.ok(before, frames, elsewhere),
        call_ensures(CowBackend::clone_map, (&w.backend, w.range, w.flags), m),
        clone_runs(stages),
        stages[0] == (CloneRun { machine: m, frames, space: before, turn: None }),
        stages.last().turn matches Some(Turn::Finished(_)),
    ensures
        stages.last().turn == Some(
            Turn::Finished(Ok::<CowBackend, crate::error::AxError>(w.backend)),
        ),
        ({
            let after = stages.last().space;
            let size = w.backend.size;
            &&& forall|p: int|
                within(w.range, p) ==> #[trigger] shared_at(
                    before,
                    after,
                    MappingFlags { bits: w.flags.bits & !2usize },
                    p,
                )
            &&& forall|p: int| !within(w.range, p) ==> #[trigger] both_alike(before, after, p)
            &&& after.mem == before.mem
            &&& sound(
                after,
                w.range,
                size,
                stages.last().frames,
                |f: usize| elsewhere(f) + uses(after.copy, w.range, size, f),
            )
            &&& sound(
                Space { table: after.copy, ..after },
                w.range,
                size,
                stages.last().frames,
                |f: usize| elsewhere(f) + uses(after.table, w.range, size, f),
            )
        }),
{
    assert(clone_invariant(stages[0], w, before, elsewhere));
    lemma_clone_stages(stages, stages.len() - 1, w, frames, before, elsewhere);
    lemma_clone_ends(stages.last(), w, frames, before, elsewhere);
}

} // verus!
