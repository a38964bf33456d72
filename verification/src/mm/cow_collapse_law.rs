//! Collapsing private memory into a huge page keeps its contents.

use vstd::prelude::*;
use crate::addr::{
    page_starts, PageSize, VirtAddrRange, PAGE_SIZE_2M, PAGE_SIZE_4K, THP_NR_4K_PAGES, THP_PAGE_BYTES,
};
use crate::effect::{Effect, Reply, Request, Turn};
use crate::error::AxError;
use crate::flags::MappingFlags;
use crate::fs::world::area;
use crate::mm::cow::CowBackend;
use crate::mm::cow_clone_law::{lemma_all_counted, lemma_huge_placed_uses};
use crate::mm::cow_collapse::{CowCollapse, CowCollapseState, CowCollapseView};
use crate::mm::cow_populate_law::{
    alone, expected, from_free, holds_expected, in_use, lemma_populate_moves, populate_invariant,
    populate_resumed, sound, taken_up, undisturbed, PopulateRun, Wish,
};
use crate::mm::cow_unmap_law::{given_back, lemma_only_freed};
use crate::mm::frames::{
    all_incremented, block_has_room, count, counts_ok, dropped, lemma_all_incremented, list_decremented,
    list_dropped, sub_frame,
};
use crate::mm::space::{
    accounted, alike, first_rights, leads, lemma_performed_behind, lemma_block_at, lemma_placed, lemma_users_finite, number, placed,
    same_block, small_pages, table_ok, tiled, users, uses, within, Space, PageEntry,
};

verus! {

/// A collapse in its space: where it stands, and what it waits for or ended with.
pub struct CollapseRun {
    pub machine: CowCollapseView,
    pub frames: Map<usize, u8>,
    pub space: Space,
    pub turn: Option<Turn<()>>,
}

/// The collapse after a reply from the space `space`.
pub open spec fn collapse_resumed(a: CollapseRun, reply: Reply, space: Space) -> CollapseRun {
    let s = a.machine.after(a.frames, reply);
    CollapseRun {
        machine: s.next,
        frames: s.frames,
        space: space.all_performed(s.effects),
        turn: Some(s.turn),
    }
}

/// Whether a collapse can go from `a` to `b`: it starts, or its request is
/// answered.
pub open spec fn collapse_moves(a: CollapseRun, b: CollapseRun) -> bool {
    match a.turn {
        None => b == collapse_resumed(a, Reply::Start, a.space),
        Some(Turn::Ask(request)) => exists|reply: Reply, space: Space| #[trigger]
            a.space.answers(request, reply, space) && b == collapse_resumed(a, reply, space),
        Some(Turn::Finished(_)) => false,
    }
}

/// Whether a collapse goes through the given stages.
pub open spec fn collapse_runs(stages: Seq<CollapseRun>) -> bool {
    &&& stages.len() > 0
    &&& forall|i: int|
        0 <= i < stages.len() - 1 ==> collapse_moves(#[trigger] stages[i], stages[i + 1])
}

/// A window that is to be collapsed, and whether missing pages are brought in.
pub struct Window {
    pub backend: CowBackend,
    pub range: VirtAddrRange,
    pub fault_in: bool,
}

impl Window {
    /// Whether the window is one of small pages that a huge one can take the place
    /// of.
    pub open spec fn ok(self) -> bool {
        &&& self.backend.size is Size4K
        &&& self.range.start as int % PAGE_SIZE_2M as int == 0
        &&& self.range.end - self.range.start == THP_PAGE_BYTES
        &&& self.fault_in ==> self.range.low(PageSize::Size4K)
        &&& self.fault_in ==> self.backend.can_fill(self.range)
    }

    /// The number of the first small page.
    pub open spec fn first(self) -> int {
        number(self.range.start)
    }

    /// The byte `i` that a small page of the window is to hold: the one that it
    /// held, or, if it was not there, that of the page that is brought in or a
    /// zero.
    pub open spec fn wanted(self, before: Space, p: int, i: int) -> u8 {
        if before.table.dom().contains(p) || self.fault_in {
            expected(self.backend, before, p, i)
        } else {
            0
        }
    }

    /// Where a small page lies in the new frame.
    pub open spec fn slot(self, new_pa: usize, p: int) -> int {
        new_pa + (p - self.first()) * PAGE_SIZE_4K
    }

    /// Whether a small page was copied into the new frame.
    pub open spec fn copied(self, before: Space, s: Space, new_pa: usize, p: int) -> bool {
        forall|a: int|
            self.slot(new_pa, p) <= a < self.slot(new_pa, p) + PAGE_SIZE_4K ==> #[trigger] s.mem[a]
                == self.wanted(before, p, a - self.slot(new_pa, p))
    }

    /// Whether the place of a small page in the new frame holds zeros.
    pub open spec fn blank(self, s: Space, new_pa: usize, p: int) -> bool {
        forall|a: int|
            self.slot(new_pa, p) <= a < self.slot(new_pa, p) + PAGE_SIZE_4K ==> #[trigger] s.mem[a]
                == 0
    }

    /// Whether the memory of a small page lies outside of the new frame.
    pub open spec fn aside(self, t: Map<int, PageEntry>, new_pa: usize, p: int) -> bool {
        t[p].paddr + PAGE_SIZE_4K <= new_pa || new_pa + PAGE_SIZE_2M <= t[p].paddr
    }

    /// Whether the window is sound beside a new frame that nobody uses.
    pub open spec fn ready(
        self,
        before: Space,
        s: Space,
        frames: Map<usize, u8>,
        new_pa: usize,
        elsewhere: spec_fn(usize) -> nat,
    ) -> bool {
        &&& sound(s, self.range, PageSize::Size4K, frames, elsewhere)
        &&& undisturbed(self.backend, self.range, before, s)
        &&& forall|p: int| !within(self.range, p) ==> #[trigger] alike(s.table, before.table, p)
        &&& forall|p: int| #[trigger]
            before.table.dom().contains(p) && within(self.range, p) ==> alike(
                s.table,
                before.table,
                p,
            )
        &&& forall|p: int| #[trigger]
            s.table.dom().contains(p) && within(self.range, p) ==> before.table.dom().contains(p)
                || self.fault_in
        &&& new_pa + PAGE_SIZE_2M <= usize::MAX
        &&& forall|a: int|
            new_pa <= a < new_pa + PAGE_SIZE_2M ==> !#[trigger] s.free.contains(a)
        &&& forall|a: int|
            new_pa <= a < new_pa + PAGE_SIZE_2M ==> #[trigger] before.free.contains(a)
        &&& forall|p: int| #[trigger]
            s.table.dom().contains(p) && within(self.range, p) ==> self.aside(s.table, new_pa, p)
        &&& forall|i: int|
            0 <= i < THP_NR_4K_PAGES ==> count(frames, #[trigger] sub_frame(new_pa, i)) == 0
    }

    /// Whether exactly the small pages in `done` were copied, and their frames are
    /// listed.
    pub open spec fn progress(
        self,
        before: Space,
        s: Space,
        new_pa: usize,
        list: Seq<usize>,
        done: Set<int>,
    ) -> bool {
        &&& forall|p: int| #[trigger]
            done.contains(p) ==> s.table.dom().contains(p) && within(self.range, p) && self.copied(
                before,
                s,
                new_pa,
                p,
            )
        &&& forall|p: int|
            within(self.range, p) && !#[trigger] done.contains(p) ==> self.blank(s, new_pa, p)
        &&& forall|f: usize| #[trigger]
            occurrences(list, f) == chosen(s.table, self.range, f, done).len()
    }

    /// The rights of the first mapped page among the first `n` small pages.
    pub open spec fn rights(self, t: Map<int, PageEntry>, n: int) -> Option<MappingFlags> {
        first_rights(t, self.first(), n)
    }

    /// Whether an address lies in the frame of a small page of the window of which
    /// no mapping is left.
    pub open spec fn disused(self, before: Space, frames: Map<usize, u8>, a: int) -> bool {
        exists|p: int| #[trigger]
            before.table.dom().contains(p) && within(self.range, p) && before.table[p].paddr <= a
                < before.table[p].paddr + PAGE_SIZE_4K && count(
                frames,
                before.table[p].paddr as usize,
            ) == 0
    }

    /// The mapped small pages of the window.
    pub open spec fn mapped(self, t: Map<int, PageEntry>) -> Set<int> {
        Set::new(|p: int| t.dom().contains(p) && within(self.range, p))
    }

    /// The mapped small pages of the window before the one with the index `at`.
    pub open spec fn mapped_below(self, t: Map<int, PageEntry>, at: int) -> Set<int> {
        Set::new(|p: int| t.dom().contains(p) && within(self.range, p) && p < self.first() + at)
    }

    /// What is asked of a population of one missing page.
    pub open spec fn bringing(self, va: usize, flags: MappingFlags) -> Wish {
        Wish {
            backend: self.backend,
            range: VirtAddrRange { start: va, end: (va + PAGE_SIZE_4K) as usize },
            flags,
            access: flags.read_only(),
        }
    }

    /// Whether the list of missing pages from the index `at` on holds the pages of
    /// the window that are to be brought in, once each.
    pub open spec fn missing(self, t: Map<int, PageEntry>, faults: Seq<usize>, at: int, limit: int) -> bool {
        &&& 0 <= at <= faults.len()
        &&& forall|k: int|
            at <= k < faults.len() ==> {
                &&& (#[trigger] faults[k]) as int % PAGE_SIZE_4K as int == 0
                &&& within(self.range, number(faults[k]))
                &&& number(faults[k]) < self.first() + limit
                &&& !t.dom().contains(number(faults[k]))
            }
        &&& forall|j: int, k: int|
            at <= j < k < faults.len() ==> #[trigger] faults[j] != #[trigger] faults[k]
        &&& self.fault_in ==> forall|p: int|
            #![trigger t.dom().contains(p)]
            within(self.range, p) && p < self.first() + limit && !t.dom().contains(p) ==> listed(
                faults,
                at,
                p,
            )
        &&& !self.fault_in ==> faults.len() == 0
    }
}

/// Whether a small page is in a list from an index on.
pub open spec fn listed(list: Seq<usize>, at: int, p: int) -> bool {
    exists|k: int| at <= k < list.len() && number(#[trigger] list[k]) == p
}

/// How often a frame is in a list.
pub open spec fn occurrences(list: Seq<usize>, f: usize) -> nat
    decreases list.len(),
{
    if list.len() == 0 {
        0
    } else {
        occurrences(list.drop_last(), f) + if list.last() == f {
            1nat
        } else {
            0nat
        }
    }
}

/// The small pages of a set that are mapped to a frame.
pub open spec fn chosen(t: Map<int, PageEntry>, range: VirtAddrRange, f: usize, done: Set<int>) -> Set<int> {
    Set::new(|p: int| users(t, range, PageSize::Size4K, f).contains(p) && done.contains(p))
}

/// What holds at every stage of a collapse.
pub open spec fn collapse_invariant(
    r: CollapseRun,
    w: Window,
    before: Space,
    elsewhere: spec_fn(usize) -> nat,
) -> bool {
    let m = r.machine;
    let s = r.space;
    &&& m.backend == w.backend
    &&& m.range == w.range
    &&& m.fault_in == w.fault_in
    &&& match r.turn {
        None => {
            &&& m.state is Begin
            &&& m.flags is None
            &&& m.faults.len() == 0
            &&& m.old_pages.len() == 0
            &&& s == before
            &&& sound(before, w.range, PageSize::Size4K, r.frames, elsewhere)
        },
        Some(Turn::Ask(request)) => match m.state {
            CowCollapseState::AwaitFrame => {
                &&& request == (Request::AllocFrame { zeroed: true, size: PageSize::Size2M })
                &&& m.flags is None
                &&& m.faults.len() == 0
                &&& m.old_pages.len() == 0
                &&& s == before
                &&& sound(before, w.range, PageSize::Size4K, r.frames, elsewhere)
            },
            CowCollapseState::AwaitEntry => {
                &&& w.scanning(r, before, elsewhere)
                &&& m.at < 512
                &&& request == (Request::Query { va: m.pages[m.at as int] })
            },
            CowCollapseState::AwaitPopulate => exists|mid: Space, counted: Map<usize, u8>|
                #[trigger]
                w.populating(r, request, before, mid, counted, elsewhere),
            CowCollapseState::AwaitFaulted => {
                let cur = number(m.faults[m.at as int]);
                &&& m.flags is Some
                &&& m.at < m.faults.len()
                &&& request == (Request::Query { va: m.faults[m.at as int] })
                &&& m.faults[m.at as int] as int % PAGE_SIZE_4K as int == 0
                &&& within(w.range, cur)
                &&& s.table.dom().contains(cur)
                &&& w.ready(before, s, r.frames, m.new_pa, elsewhere)
                &&& w.progress(before, s, m.new_pa, m.old_pages, w.mapped(s.table).remove(cur))
                &&& w.missing(s.table, m.faults, m.at as int + 1, 512)
                &&& m.flags == w.rights(before.table, 512)
            },
            CowCollapseState::AwaitRemap => {
                &&& m.flags is Some
                &&& m.flags == w.rights(before.table, 512)
                &&& request == (Request::RemapHuge {
                    va: w.range.start,
                    paddr: m.new_pa,
                    flags: m.flags.unwrap(),
                })
                &&& w.ready(before, s, r.frames, m.new_pa, elsewhere)
                &&& w.progress(before, s, m.new_pa, m.old_pages, w.mapped(s.table))
                &&& w.missing(s.table, m.faults, m.faults.len() as int, 512)
            },
            _ => false,
        },
        Some(Turn::Finished(result)) => w.ended(before, r, result, elsewhere),
    }
}

impl Window {
    /// Whether the pages before the one where a collapse stands were looked at.
    pub open spec fn scanning(
        self,
        r: CollapseRun,
        before: Space,
        elsewhere: spec_fn(usize) -> nat,
    ) -> bool {
        let m = r.machine;
        let s = r.space;
        &&& m.at <= 512
        &&& m.pages == page_starts(
            self.range.start as int,
            self.range.end as int,
            PAGE_SIZE_4K as int,
        )
        &&& self.ready(before, s, r.frames, m.new_pa, elsewhere)
        &&& self.progress(
            before,
            s,
            m.new_pa,
            m.old_pages,
            self.mapped_below(s.table, m.at as int),
        )
        &&& self.missing(s.table, m.faults, 0, m.at as int)
        &&& s.table == before.table
        &&& s.free == before.free.difference(area(m.new_pa as int, PAGE_SIZE_2M as int))
        &&& m.flags == self.rights(before.table, m.at as int)
    }

    /// Whether a missing page is being brought in.
    pub open spec fn populating(
        self,
        r: CollapseRun,
        request: Request,
        before: Space,
        mid: Space,
        counted: Map<usize, u8>,
        elsewhere: spec_fn(usize) -> nat,
    ) -> bool {
        let m = r.machine;
        &&& m.flags is Some
        &&& self.between(m, before, mid, counted, elsewhere)
        &&& m.at < m.faults.len()
        &&& populate_invariant(
            PopulateRun {
                machine: m.populate,
                frames: r.frames,
                space: r.space,
                turn: Some(Turn::Ask(request)),
            },
            self.bringing(m.faults[m.at as int], m.flags.unwrap()),
            mid,
            |f: usize| count(counted, f),
        )
    }

    /// Whether all mapped pages were copied and the rest of the missing ones is to
    /// be brought in.
    pub open spec fn between(
        self,
        m: CowCollapseView,
        before: Space,
        s: Space,
        frames: Map<usize, u8>,
        elsewhere: spec_fn(usize) -> nat,
    ) -> bool {
        &&& self.ready(before, s, frames, m.new_pa, elsewhere)
        &&& self.progress(before, s, m.new_pa, m.old_pages, self.mapped(s.table))
        &&& self.missing(s.table, m.faults, m.at as int, 512)
        &&& m.flags == self.rights(before.table, 512)
    }

    /// Whether a collapse ended as it should: it succeeds if a page of the window was
    /// there, and else changes nothing that is mapped.
    pub open spec fn ended(
        self,
        before: Space,
        r: CollapseRun,
        result: Result<(), AxError>,
        elsewhere: spec_fn(usize) -> nat,
    ) -> bool {
        if self.rights(before.table, THP_NR_4K_PAGES as int) is Some {
            &&& result is Ok
            &&& self.collapsed(
                before,
                r.space,
                r.frames,
                r.machine.new_pa,
                r.machine.flags.unwrap(),
                elsewhere,
            )
        } else {
            &&& result == Err::<(), AxError>(AxError::InvalidInput)
            &&& r.space.table == before.table
            &&& r.space.free == before.free
        }
    }

    /// Whether the window is one huge page that holds what its small pages held,
    /// with the rights of the first of them. Each new frame has one mapping, and
    /// exactly the old ones of which no mapping is left were given back.
    pub open spec fn collapsed(
        self,
        before: Space,
        s: Space,
        frames: Map<usize, u8>,
        new_pa: usize,
        flags: MappingFlags,
        elsewhere: spec_fn(usize) -> nat,
    ) -> bool {
        let t = s.table;
        &&& table_ok(t)
        &&& tiled(t, self.range, PageSize::Size4K)
        &&& counts_ok(frames)
        &&& accounted(t, self.range, PageSize::Size4K, frames, elsewhere)
        &&& alone(t, self.range, PageSize::Size4K, frames)
        &&& forall|p: int|
            within(self.range, p) ==> #[trigger] t.dom().contains(p) && t[p].size is Size2M
                && t[p].flags == flags && t[p].paddr == self.slot(new_pa, p) && self.copied(
                before,
                s,
                new_pa,
                p,
            )
        &&& forall|p: int| !within(self.range, p) ==> #[trigger] alike(t, before.table, p)
        &&& forall|a: int| !before.free.contains(a) ==> #[trigger] s.mem[a] == before.mem[a]
        &&& self.rights(before.table, THP_NR_4K_PAGES as int) == Some(flags)
        &&& forall|i: int|
            0 <= i < THP_NR_4K_PAGES ==> count(frames, #[trigger] sub_frame(new_pa, i)) == 1
        &&& forall|a: int| new_pa <= a < new_pa + PAGE_SIZE_2M ==> !#[trigger] s.free.contains(a)
        &&& forall|a: int| #[trigger] self.disused(before, frames, a) ==> s.free.contains(a)
        &&& forall|a: int| #[trigger]
            s.free.contains(a) ==> before.free.contains(a) || self.disused(before, frames, a)
    }
}

/// A list that grows has one more of what it grows by.
proof fn lemma_occurrences_push(list: Seq<usize>, x: usize, f: usize)
    ensures
        occurrences(list.push(x), f) == occurrences(list, f) + if x == f {
            1nat
        } else {
            0nat
        },
{
    assert(list.push(x).drop_last() =~= list);
}

/// Counting the frames of a list off takes as many mappings off each frame as it
/// is in the list.
proof fn lemma_list_decremented(m: Map<usize, u8>, list: Seq<usize>)
    requires
        counts_ok(m),
        forall|f: usize| #[trigger] occurrences(list, f) <= count(m, f),
    ensures
        counts_ok(list_decremented(m, list)),
        forall|f: usize| #[trigger]
            count(list_decremented(m, list), f) == count(m, f) - occurrences(list, f),
    decreases list.len(),
{
    if list.len() > 0 {
        let front = list.drop_last();
        assert forall|f: usize| #[trigger] occurrences(front, f) <= count(m, f) by {
            assert(occurrences(list, f) <= count(m, f));
        }
        lemma_list_decremented(m, front);
        let mid = list_decremented(m, front);
        assert forall|f: usize| #[trigger] count(list_decremented(m, list), f) == count(m, f)
            - occurrences(list, f) by {
            assert(occurrences(list, f) <= count(m, f));
            assert(count(mid, f) == count(m, f) - occurrences(front, f));
        }
    }
}

proof fn lemma_list_only_freed(m: Map<usize, u8>, list: Seq<usize>)
    ensures
        forall|i: int|
            0 <= i < list_dropped(m, list).len() ==> (#[trigger] list_dropped(m, list)[i] matches Effect::FreeFrame {
                size,
                ..
            } && size is Size4K),
    decreases list.len(),
{
    if list.len() > 0 {
        lemma_list_only_freed(m, list.drop_last());
    }
}

/// The small pages of the window are those of the huge page.
proof fn lemma_window(w: Window, p: int)
    requires
        w.ok(),
    ensures
        within(w.range, p) == same_block(w.first(), p, PageSize::Size2M),
        within(w.range, p) == (w.first() <= p < w.first() + 512),
        leads(w.first(), PageSize::Size2M),
        leads(p, PageSize::Size4K),
        w.first() * PAGE_SIZE_4K == w.range.start,
{
    lemma_block_at(w.range.start, PageSize::Size2M, p);
    assert(p % 1 == 0);
}

/// A small page is copied into its place in the new frame.
proof fn lemma_one_copied(
    w: Window,
    before: Space,
    s: Space,
    frames: Map<usize, u8>,
    new_pa: usize,
    list: Seq<usize>,
    done: Set<int>,
    p: int,
    elsewhere: spec_fn(usize) -> nat,
)
    requires
        w.ok(),
        w.ready(before, s, frames, new_pa, elsewhere),
        w.progress(before, s, new_pa, list, done),
        within(w.range, p),
        s.table.dom().contains(p),
        !done.contains(p),
    ensures
        ({
            let after = s.performed(
                Effect::Copy {
                    src: s.table[p].paddr as usize,
                    dst: w.slot(new_pa, p) as usize,
                    len: PAGE_SIZE_4K,
                },
            );
            &&& after.table == s.table
            &&& w.ready(before, after, frames, new_pa, elsewhere)
            &&& w.progress(
                before,
                after,
                new_pa,
                list.push(s.table[p].paddr as usize),
                done.insert(p),
            )
        }),
{
    let t = s.table;
    let frame = t[p].paddr as usize;
    let at = w.slot(new_pa, p);
    lemma_window(w, p);
    assert(new_pa <= at && at + PAGE_SIZE_4K <= new_pa + PAGE_SIZE_2M);
    let after = s.performed(Effect::Copy { src: frame, dst: at as usize, len: PAGE_SIZE_4K });
    assert forall|a: int| #[trigger] after.mem[a] == if at <= a < at + PAGE_SIZE_4K {
        s.mem[frame + (a - at)]
    } else {
        s.mem[a]
    } by {}
    assert forall|a: int| !before.free.contains(a) implies #[trigger] after.mem[a] == before.mem[a] by {
        assert(s.mem[a] == before.mem[a]);
    }
    assert forall|q: int| #[trigger] t.dom().contains(q) && within(w.range, q) implies holds_expected(
        w.backend,
        before,
        after,
        q,
    ) && taken_up(after, q) && (!before.table.dom().contains(q) ==> from_free(before, after, q)) by {
        assert(holds_expected(w.backend, before, s, q) && taken_up(s, q));
        assert(w.aside(t, new_pa, q));
        assert forall|a: int| t[q].paddr <= a < t[q].paddr + PAGE_SIZE_4K implies #[trigger] after.mem[a]
            == expected(w.backend, before, q, a - t[q].paddr) by {
            assert(after.mem[a] == s.mem[a]);
        }
        if !before.table.dom().contains(q) {
            assert(from_free(before, s, q));
        }
    }
    assert(undisturbed(w.backend, w.range, before, after));
    assert(sound(after, w.range, PageSize::Size4K, frames, elsewhere));
    assert(w.ready(before, after, frames, new_pa, elsewhere));
    let more = done.insert(p);
    assert forall|q: int| #[trigger] more.contains(q) implies after.table.dom().contains(q) && within(
        w.range,
        q,
    ) && w.copied(before, after, new_pa, q) by {
        lemma_window(w, q);
        if q == p {
            assert(holds_expected(w.backend, before, s, p));
            assert forall|a: int| at <= a < at + PAGE_SIZE_4K implies #[trigger] after.mem[a] == w.wanted(
                before,
                p,
                a - at,
            ) by {
                assert(s.mem[frame + (a - at)] == expected(w.backend, before, p, a - at));
            }
        } else {
            assert(done.contains(q));
            assert(w.copied(before, s, new_pa, q));
            let there = w.slot(new_pa, q);
            assert forall|a: int| there <= a < there + PAGE_SIZE_4K implies #[trigger] after.mem[a]
                == w.wanted(before, q, a - there) by {
                assert(s.mem[a] == w.wanted(before, q, a - there));
            }
        }
    }
    assert forall|q: int| within(w.range, q) && !#[trigger] more.contains(q) implies w.blank(
        after,
        new_pa,
        q,
    ) by {
        lemma_window(w, q);
        assert(!done.contains(q));
        assert(w.blank(s, new_pa, q));
        let there = w.slot(new_pa, q);
        assert forall|a: int| there <= a < there + PAGE_SIZE_4K implies #[trigger] after.mem[a] == 0 by {
            assert(s.mem[a] == 0);
        }
    }
    let longer = list.push(frame);
    assert forall|f: usize| #[trigger] occurrences(longer, f) == chosen(t, w.range, f, more).len() by {
        lemma_occurrences_push(list, frame, f);
        assert(occurrences(list, f) == chosen(t, w.range, f, done).len());
        lemma_users_finite(t, w.range, PageSize::Size4K, f);
        let had = chosen(t, w.range, f, done);
        vstd::set_lib::lemma_len_subset(had, users(t, w.range, PageSize::Size4K, f));
        if f == frame {
            assert(chosen(t, w.range, f, more) =~= had.insert(p));
            assert(!had.contains(p));
        } else {
            assert(chosen(t, w.range, f, more) =~= had);
        }
    }
}

/// The wish for a missing page can be asked for.
proof fn lemma_wish_ok(w: Window, va: usize, flags: MappingFlags)
    requires
        w.ok(),
        w.fault_in,
        va as int % PAGE_SIZE_4K as int == 0,
        within(w.range, number(va)),
    ensures
        w.bringing(va, flags).ok(),
        va + PAGE_SIZE_4K <= w.range.end,
        number(va) * PAGE_SIZE_4K == va,
        forall|p: int| #[trigger] within(w.bringing(va, flags).range, p) == (p == number(va)),
{
    let bits = flags.bits;
    assert(bits & (bits & !2usize) == bits & !2usize) by (bit_vector);
    assert((bits & !2usize) & 2usize != 2usize) by (bit_vector);
    lemma_window(w, number(va));
    assert((va + 4096) % 4096 == 0);
    let wish = w.bringing(va, flags);
    assert(wish.range.aligned_to(PageSize::Size4K));
}

/// A window is ready for a population of a missing page.
proof fn lemma_can_bring(
    w: Window,
    m: CowCollapseView,
    before: Space,
    s: Space,
    frames: Map<usize, u8>,
    elsewhere: spec_fn(usize) -> nat,
)
    requires
        w.ok(),
        w.between(m, before, s, frames, elsewhere),
        m.at < m.faults.len(),
        m.flags is Some,
    ensures
        ({
            let va = m.faults[m.at as int];
            let wish = w.bringing(va, m.flags.unwrap());
            &&& wish.ok()
            &&& sound(s, wish.range, PageSize::Size4K, frames, |f: usize| count(frames, f))
            &&& within(w.range, number(va))
            &&& !s.table.dom().contains(number(va))
        }),
{
    let va = m.faults[m.at as int];
    let cur = number(va);
    let wish = w.bringing(va, m.flags.unwrap());
    let size = PageSize::Size4K;
    let t = s.table;
    lemma_wish_ok(w, va, m.flags.unwrap());
    assert forall|f: usize| #[trigger] count(frames, f) == count(frames, f) + uses(t, wish.range, size, f) by {
        assert(users(t, wish.range, size, f) =~= Set::empty());
    }
    let here = |f: usize| count(frames, f);
    assert(accounted(t, wish.range, size, frames, here));
    assert(tiled(t, wish.range, size));
    assert(in_use(s, wish.range, frames));
    assert(alone(t, wish.range, size, frames));
}

/// A missing page was brought in.
proof fn lemma_brought(
    w: Window,
    m: CowCollapseView,
    before: Space,
    mid: Space,
    counted: Map<usize, u8>,
    s: Space,
    frames: Map<usize, u8>,
    n: usize,
    elsewhere: spec_fn(usize) -> nat,
)
    requires
        w.ok(),
        w.fault_in,
        w.between(m, before, mid, counted, elsewhere),
        m.at < m.faults.len(),
        m.flags is Some,
        ({
            let wish = w.bringing(m.faults[m.at as int], m.flags.unwrap());
            wish.reached(
                frames,
                mid,
                s,
                wish.range.end as int,
                n,
                |f: usize| count(counted, f),
            )
        }),
    ensures
        ({
            let cur = number(m.faults[m.at as int]);
            &&& s.table.dom().contains(cur)
            &&& w.ready(before, s, frames, m.new_pa, elsewhere)
            &&& w.progress(before, s, m.new_pa, m.old_pages, w.mapped(s.table).remove(cur))
            &&& w.missing(s.table, m.faults, m.at as int + 1, 512)
            &&& m.flags == w.rights(before.table, 512)
        }),
{
    let va = m.faults[m.at as int];
    let cur = number(va);
    let flags = m.flags.unwrap();
    let wish = w.bringing(va, flags);
    let size = PageSize::Size4K;
    let t = s.table;
    let t1 = mid.table;
    lemma_wish_ok(w, va, flags);
    lemma_window(w, cur);
    assert(within(wish.range, cur));
    assert(t.dom().contains(cur)) by {
        assert(cur * PAGE_SIZE_4K < wish.range.end as int);
        assert(t.dom().contains(cur) || !t.dom().contains(cur));
    }
    assert forall|p: int| p != cur implies #[trigger] alike(t, t1, p) by {
        assert(!within(wish.range, p));
        assert(t.dom().contains(p) || !t.dom().contains(p));
    }
    assert(from_free(mid, s, cur) && holds_expected(w.backend, mid, s, cur));
    let fresh = t[cur].paddr;
    assert(mid.free.contains(fresh));
    assert(count(counted, fresh as usize) == 0);
    assert(w.aside(t, m.new_pa, cur)) by {
        if !(fresh + PAGE_SIZE_4K <= m.new_pa || m.new_pa + PAGE_SIZE_2M <= fresh) {
            if fresh >= m.new_pa {
                assert(!mid.free.contains(fresh));
            } else {
                assert(!mid.free.contains(m.new_pa as int));
                assert(mid.free.contains(m.new_pa as int));
            }
        }
    }
    lemma_more_accounted(w, counted, t, t1, frames, cur, wish, elsewhere);
    assert forall|p: int| #[trigger] t.dom().contains(p) && within(w.range, p) implies {
        &&& taken_up(s, p)
        &&& holds_expected(w.backend, before, s, p)
        &&& !before.table.dom().contains(p) ==> from_free(before, s, p)
        &&& w.aside(t, m.new_pa, p)
    } by {
        if p == cur {
            assert(taken_up(s, cur));
            assert(!t1.dom().contains(cur));
            assert(!before.table.dom().contains(cur));
            assert forall|i: int| #[trigger] expected(w.backend, mid, cur, i) == expected(
                w.backend,
                before,
                cur,
                i,
            ) by {}
            assert forall|a: int| t[cur].paddr <= a < t[cur].paddr + PAGE_SIZE_4K implies #[trigger] before.free.contains(
            a) by {
                assert(mid.free.contains(a));
            }
        } else {
            assert(alike(t, t1, p));
            assert(t1.dom().contains(p));
            assert(taken_up(mid, p) && holds_expected(w.backend, before, mid, p));
            assert forall|a: int| t[p].paddr <= a < t[p].paddr + PAGE_SIZE_4K implies #[trigger] s.mem[a]
                == expected(w.backend, before, p, a - t[p].paddr) by {
                assert(!mid.free.contains(a));
                assert(s.mem[a] == mid.mem[a]);
            }
            assert forall|a: int| t[p].paddr <= a < t[p].paddr + PAGE_SIZE_4K implies !#[trigger] s.free.contains(
            a) by {
                assert(!mid.free.contains(a));
            }
            if !before.table.dom().contains(p) {
                assert(from_free(before, mid, p));
            }
            assert(w.aside(t1, m.new_pa, p));
        }
    }
    assert forall|a: int| !before.free.contains(a) implies #[trigger] s.mem[a] == before.mem[a] by {
        assert(!mid.free.contains(a));
        assert(s.mem[a] == mid.mem[a]);
    }
    assert(undisturbed(w.backend, w.range, before, s));
    assert(tiled(t, w.range, size)) by {
        assert forall|p: int| #[trigger] t.dom().contains(p) && within(w.range, p) implies t[p].size
            is Size4K || t[p].size is Size2M by {
            if p != cur {
                assert(alike(t, t1, p));
                assert(t1.dom().contains(p));
            }
        }
    }
    assert(alone(t, w.range, size, frames)) by {
        assert forall|p: int| #[trigger]
            t.dom().contains(p) && within(w.range, p) && leads(p, size) && t[p].flags.writable() implies count(
            frames,
            t[p].paddr as usize,
        ) == 1 by {
            if p != cur {
                assert(alike(t, t1, p));
                assert(t1.dom().contains(p));
                assert(count(counted, t[p].paddr as usize) == 1);
            }
        }
    }
    assert(in_use(s, w.range, frames));
    assert(sound(s, w.range, size, frames, elsewhere));
    assert forall|p: int| !within(w.range, p) implies #[trigger] alike(t, before.table, p) by {
        assert(alike(t, t1, p));
        assert(alike(t1, before.table, p));
    }
    assert forall|p: int| #[trigger] before.table.dom().contains(p) && within(w.range, p) implies alike(
        t,
        before.table,
        p,
    ) by {
        assert(alike(t1, before.table, p));
        assert(alike(t, t1, p));
    }
    assert forall|i: int| 0 <= i < THP_NR_4K_PAGES implies count(
        frames,
        #[trigger] sub_frame(m.new_pa, i),
    ) == 0 by {
        assert(count(counted, sub_frame(m.new_pa, i)) == 0);
        assert(sub_frame(m.new_pa, i) == m.new_pa + i * PAGE_SIZE_4K);
    }
    assert(w.ready(before, s, frames, m.new_pa, elsewhere)) by {
        assert forall|a: int| m.new_pa <= a < m.new_pa + PAGE_SIZE_2M implies !#[trigger] s.free.contains(a) by {
            assert(!mid.free.contains(a));
        }
    }
    let done = w.mapped(t).remove(cur);
    assert(done =~= w.mapped(t1)) by {
        assert forall|p: int| #[trigger] done.contains(p) == w.mapped(t1).contains(p) by {
            if p != cur {
                assert(alike(t, t1, p));
            }
        }
    }
    assert forall|p: int| #[trigger] done.contains(p) implies t.dom().contains(p) && within(w.range, p)
        && w.copied(before, s, m.new_pa, p) by {
        assert(w.mapped(t1).contains(p));
        assert(w.copied(before, mid, m.new_pa, p));
        lemma_window(w, p);
        let there = w.slot(m.new_pa, p);
        assert forall|a: int| there <= a < there + PAGE_SIZE_4K implies #[trigger] s.mem[a] == w.wanted(
            before,
            p,
            a - there,
        ) by {
            assert(!mid.free.contains(a));
            assert(s.mem[a] == mid.mem[a]);
        }
    }
    assert forall|p: int| within(w.range, p) && !#[trigger] done.contains(p) implies w.blank(
        s,
        m.new_pa,
        p,
    ) by {
        assert(!w.mapped(t1).contains(p));
        assert(w.blank(mid, m.new_pa, p));
        lemma_window(w, p);
        let there = w.slot(m.new_pa, p);
        assert forall|a: int| there <= a < there + PAGE_SIZE_4K implies #[trigger] s.mem[a] == 0 by {
            assert(!mid.free.contains(a));
            assert(s.mem[a] == mid.mem[a]);
        }
    }
    assert forall|f: usize| #[trigger] occurrences(m.old_pages, f) == chosen(t, w.range, f, done).len() by {
        assert(occurrences(m.old_pages, f) == chosen(t1, w.range, f, w.mapped(t1)).len());
        assert forall|p: int| #[trigger] chosen(t, w.range, f, done).contains(p) == chosen(
            t1,
            w.range,
            f,
            w.mapped(t1),
        ).contains(p) by {
            if p != cur {
                assert(alike(t, t1, p));
            }
        }
        assert(chosen(t, w.range, f, done) =~= chosen(t1, w.range, f, w.mapped(t1)));
    }
    assert(w.missing(t, m.faults, m.at as int + 1, 512)) by {
        assert forall|k: int| m.at + 1 <= k < m.faults.len() implies {
            &&& (#[trigger] m.faults[k]) as int % PAGE_SIZE_4K as int == 0
            &&& within(w.range, number(m.faults[k]))
            &&& number(m.faults[k]) < w.first() + 512
            &&& !t.dom().contains(number(m.faults[k]))
        } by {
            assert(m.faults[m.at as int] != m.faults[k]);
            assert(number(m.faults[k]) != cur);
            assert(alike(t, t1, number(m.faults[k])));
        }
        assert forall|p: int| #![trigger t.dom().contains(p)] within(w.range, p) && p < w.first() + 512
            && !t.dom().contains(p) implies listed(m.faults, m.at as int + 1, p) by {
            assert(alike(t, t1, p));
            assert(!t1.dom().contains(p));
            assert(listed(m.faults, m.at as int, p));
            let k = choose|k: int|
                m.at <= k < m.faults.len() && number(#[trigger] m.faults[k]) == p;
            assert(k != m.at);
        }
    }
}

/// The counts are right with the page that was brought in.
proof fn lemma_more_accounted(
    w: Window,
    counted: Map<usize, u8>,
    t: Map<int, PageEntry>,
    t1: Map<int, PageEntry>,
    frames: Map<usize, u8>,
    cur: int,
    wish: Wish,
    elsewhere: spec_fn(usize) -> nat,
)
    requires
        w.ok(),
        within(w.range, cur),
        t.dom().contains(cur),
        !t1.dom().contains(cur),
        forall|p: int| p != cur ==> #[trigger] alike(t, t1, p),
        forall|p: int| #[trigger] within(wish.range, p) == (p == cur),
        accounted(t1, w.range, PageSize::Size4K, counted, elsewhere),
        accounted(
            t,
            wish.range,
            PageSize::Size4K,
            frames,
            |f: usize| count(counted, f),
        ),
        0 <= t[cur].paddr <= usize::MAX,
        count(counted, t[cur].paddr as usize) == 0,
    ensures
        accounted(t, w.range, PageSize::Size4K, frames, elsewhere),
        forall|f: usize| f != t[cur].paddr ==> #[trigger] count(frames, f) == count(counted, f),
        count(frames, t[cur].paddr as usize) == 1,
{
    let size = PageSize::Size4K;
    let fresh = t[cur].paddr as usize;
    assert forall|f: usize| #[trigger] count(frames, f) == elsewhere(f) + uses(t, w.range, size, f)
        && count(frames, f) == count(counted, f) + (if f == fresh {
        1nat
    } else {
        0
    }) by {
        let here = |f: usize| count(counted, f);
        assert(count(frames, f) == here(f) + uses(t, wish.range, size, f));
        assert(count(counted, f) == elsewhere(f) + uses(t1, w.range, size, f));
        lemma_window(w, cur);
        let now = users(t, w.range, size, f);
        let then = users(t1, w.range, size, f);
        if f == fresh {
            assert forall|p: int| #[trigger] now.contains(p) == then.insert(cur).contains(p) by {
                if p != cur {
                    assert(alike(t, t1, p));
                }
            }
            assert(now =~= then.insert(cur));
            crate::mm::space::lemma_user_come(t1, t, w.range, size, f, cur);
            let sub = users(t, wish.range, size, f);
            assert forall|p: int| #[trigger] sub.contains(p) == (p == cur) by {
                assert(within(wish.range, p) == (p == cur));
            }
            assert(sub =~= Set::<int>::empty().insert(cur));
            assert(sub.len() == 1);
        } else {
            assert forall|p: int| #[trigger] now.contains(p) == then.contains(p) by {
                if p != cur {
                    assert(alike(t, t1, p));
                }
            }
            assert(now =~= then);
            let sub = users(t, wish.range, size, f);
            assert forall|p: int| !#[trigger] sub.contains(p) by {
                assert(within(wish.range, p) == (p == cur));
            }
            assert(sub =~= Set::<int>::empty());
        }
    }
}

/// How the frames are counted once the huge page is there.
proof fn lemma_recounted(
    w: Window,
    before: Space,
    s: Space,
    frames: Map<usize, u8>,
    new_pa: usize,
    list: Seq<usize>,
    flags: MappingFlags,
    elsewhere: spec_fn(usize) -> nat,
)
    requires
        w.ok(),
        w.ready(before, s, frames, new_pa, elsewhere),
        w.progress(before, s, new_pa, list, w.mapped(s.table)),
    ensures
        ({
            let t = placed(s.table, w.first(), new_pa as int, PageSize::Size2M, flags);
            let more = all_incremented(frames, new_pa, THP_NR_4K_PAGES as nat);
            let left = list_decremented(more, list);
            &&& counts_ok(left)
            &&& accounted(t, w.range, PageSize::Size4K, left, elsewhere)
            &&& forall|i: int|
                0 <= i < THP_NR_4K_PAGES ==> count(left, #[trigger] sub_frame(new_pa, i)) == 1
            &&& counts_ok(more)
            &&& forall|f: usize| #[trigger] occurrences(list, f) <= count(more, f)
            &&& forall|f: usize| #[trigger]
                occurrences(list, f) == uses(s.table, w.range, PageSize::Size4K, f)
        }),
{
    let size = PageSize::Size4K;
    let n = THP_NR_4K_PAGES as nat;
    let p0 = w.first();
    let t = s.table;
    let u = placed(t, p0, new_pa as int, PageSize::Size2M, flags);
    let more = all_incremented(frames, new_pa, n);
    let left = list_decremented(more, list);
    assert(block_has_room(frames, new_pa)) by {
        assert forall|i: int| 0 <= i < n implies count(frames, #[trigger] sub_frame(new_pa, i)) < u8::MAX by {
            assert(count(frames, sub_frame(new_pa, i)) == 0);
        }
    }
    lemma_all_incremented(frames, new_pa, n);
    lemma_all_counted(frames, new_pa, n);
    assert forall|f: usize| #[trigger] occurrences(list, f) <= count(more, f) && occurrences(list, f)
        == uses(t, w.range, size, f) by {
        assert(chosen(t, w.range, f, w.mapped(t)) =~= users(t, w.range, size, f));
        assert(count(frames, f) == elsewhere(f) + uses(t, w.range, size, f));
        if exists|i: int| 0 <= i < n && f == #[trigger] sub_frame(new_pa, i) {
            let i = choose|i: int| 0 <= i < n && f == #[trigger] sub_frame(new_pa, i);
            assert(count(more, sub_frame(new_pa, i)) == count(frames, sub_frame(new_pa, i)) + 1);
        } else {
            assert(count(more, f) == count(frames, f));
        }
    }
    lemma_list_decremented(more, list);
    let c = Map::new(
        |q: int| t.dom().contains(q) && !same_block(p0, q, PageSize::Size2M),
        |q: int| t[q],
    );
    assert(placed(c, p0, new_pa as int, PageSize::Size2M, flags) =~= u);
    assert forall|f: usize| #[trigger] count(left, f) == elsewhere(f) + uses(u, w.range, size, f) by {
        lemma_huge_placed_uses(c, w.range, w.range.start, new_pa, flags, f);
        assert(users(c, w.range, size, f) =~= Set::empty()) by {
            assert forall|p: int| !#[trigger] users(c, w.range, size, f).contains(p) by {
                lemma_window(w, p);
            }
        }
        assert(occurrences(list, f) == uses(t, w.range, size, f));
        assert(count(left, f) == count(more, f) - occurrences(list, f));
        assert(count(frames, f) == elsewhere(f) + uses(t, w.range, size, f));
        if exists|i: int| 0 <= i < n && f == #[trigger] sub_frame(new_pa, i) {
            let i = choose|i: int| 0 <= i < n && f == #[trigger] sub_frame(new_pa, i);
            assert(count(more, sub_frame(new_pa, i)) == count(frames, sub_frame(new_pa, i)) + 1);
        } else {
            assert(count(more, f) == count(frames, f));
        }
    }
    assert forall|i: int| 0 <= i < n implies count(left, #[trigger] sub_frame(new_pa, i)) == 1 by {
        let f = sub_frame(new_pa, i);
        assert(occurrences(list, f) == uses(t, w.range, size, f));
        assert(count(frames, f) == elsewhere(f) + uses(t, w.range, size, f));
        assert(count(more, f) == count(frames, f) + 1);
        assert(count(left, f) == count(more, f) - occurrences(list, f));
    }
}

/// Whether an address lies in a small frame that was given back.
pub open spec fn freed_at(effects: Seq<Effect>, a: int) -> bool {
    exists|f: usize| #[trigger]
        given_back(effects, f, PageSize::Size4K) && f <= a < f + PAGE_SIZE_4K
}

/// Small frames that are given back belong to nobody.
proof fn lemma_freed_at(s: Space, effects: Seq<Effect>)
    requires
        forall|i: int|
            0 <= i < effects.len() ==> (#[trigger] effects[i] matches Effect::FreeFrame { size, .. }
                && size is Size4K),
    ensures
        forall|a: int| #[trigger]
            s.all_performed(effects).free.contains(a) == (s.free.contains(a) || freed_at(effects, a)),
    decreases effects.len(),
{
    let after = s.all_performed(effects);
    if effects.len() > 0 {
        let front = effects.drop_last();
        assert forall|i: int| 0 <= i < front.len() implies (#[trigger] front[i] matches Effect::FreeFrame {
            size,
            ..
        } && size is Size4K) by {
            assert(front[i] == effects[i]);
        }
        lemma_freed_at(s, front);
        let n = effects.len() - 1;
        let last = effects[n]->FreeFrame_paddr;
        assert(effects[n] == effects.last());
        assert(after.free == s.all_performed(front).free.union(area(last as int, 4096)));
        assert forall|a: int| #[trigger] after.free.contains(a) == (s.free.contains(a) || freed_at(
            effects,
            a,
        )) by {
            if freed_at(front, a) {
                let f = choose|f: usize| #[trigger]
                    given_back(front, f, PageSize::Size4K) && f <= a < f + PAGE_SIZE_4K;
                let x = Effect::FreeFrame { paddr: f, size: PageSize::Size4K };
                let i = choose|i: int| 0 <= i < front.len() && front[i] == x;
                assert(effects[i] == x);
                assert(given_back(effects, f, PageSize::Size4K));
            }
            if last <= a < last + PAGE_SIZE_4K {
                assert(given_back(effects, last, PageSize::Size4K));
            }
            if freed_at(effects, a) {
                let f = choose|f: usize| #[trigger]
                    given_back(effects, f, PageSize::Size4K) && f <= a < f + PAGE_SIZE_4K;
                let x = Effect::FreeFrame { paddr: f, size: PageSize::Size4K };
                let i = choose|i: int| 0 <= i < effects.len() && effects[i] == x;
                if i < n {
                    assert(front[i] == x);
                    assert(given_back(front, f, PageSize::Size4K));
                }
            }
        }
    } else {
        assert forall|a: int| !#[trigger] freed_at(effects, a) by {}
    }
}

/// Of the old frames exactly those are given back of which no mapping is left.
proof fn lemma_old_frames(
    w: Window,
    before: Space,
    s: Space,
    frames: Map<usize, u8>,
    new_pa: usize,
    list: Seq<usize>,
    after: Space,
    elsewhere: spec_fn(usize) -> nat,
)
    requires
        w.ok(),
        w.ready(before, s, frames, new_pa, elsewhere),
        w.progress(before, s, new_pa, list, w.mapped(s.table)),
        after.free == s.free,
    ensures
        ({
            let more = all_incremented(frames, new_pa, THP_NR_4K_PAGES as nat);
            let left = list_decremented(more, list);
            let end = after.all_performed(list_dropped(more, list));
            &&& forall|a: int| new_pa <= a < new_pa + PAGE_SIZE_2M ==> !#[trigger] end.free.contains(a)
            &&& forall|a: int| #[trigger] w.disused(before, left, a) ==> end.free.contains(a)
            &&& forall|a: int| #[trigger]
                end.free.contains(a) ==> before.free.contains(a) || w.disused(before, left, a)
        }),
{
    let t = s.table;
    let size = PageSize::Size4K;
    let more = all_incremented(frames, new_pa, THP_NR_4K_PAGES as nat);
    let left = list_decremented(more, list);
    let effects = list_dropped(more, list);
    let end = after.all_performed(effects);
    lemma_list_only_freed(more, list);
    lemma_freed_at(after, effects);
    lemma_recounted(w, before, s, frames, new_pa, list, MappingFlags { bits: 0 }, elsewhere);
    law_list_gives_back_the_last(more, list);
    assert forall|a: int| #[trigger] w.disused(before, left, a) implies end.free.contains(a) by {
        let p = choose|p: int| #[trigger]
            before.table.dom().contains(p) && within(w.range, p) && before.table[p].paddr <= a
                < before.table[p].paddr + PAGE_SIZE_4K && count(
                left,
                before.table[p].paddr as usize,
            ) == 0;
        assert(alike(t, before.table, p));
        assert(taken_up(s, p));
        let f = t[p].paddr as usize;
        lemma_window(w, p);
        lemma_users_finite(t, w.range, size, f);
        assert(users(t, w.range, size, f).contains(p));
        assert(users(t, w.range, size, f).remove(p).len() + 1 == uses(t, w.range, size, f));
        assert(occurrences(list, f) == uses(t, w.range, size, f));
        assert(given_back(effects, f, size));
    }
    assert forall|a: int| #[trigger] end.free.contains(a) implies (before.free.contains(a)
        || w.disused(before, left, a)) && !(new_pa <= a < new_pa + PAGE_SIZE_2M) by {
        if s.free.contains(a) {
        } else {
            let f = choose|f: usize| #[trigger]
                given_back(effects, f, size) && f <= a < f + PAGE_SIZE_4K;
            assert(occurrences(list, f) == uses(t, w.range, size, f));
            let all = users(t, w.range, size, f);
            if forall|p: int| !#[trigger] all.contains(p) {
                assert(all =~= Set::empty());
            }
            let p = choose|p: int| #[trigger] all.contains(p);
            assert(t.dom().contains(p) && within(w.range, p));
            assert(w.aside(t, new_pa, p));
            if before.table.dom().contains(p) {
                assert(alike(t, before.table, p));
                assert(count(left, before.table[p].paddr as usize) == 0);
            } else {
                assert(from_free(before, s, p));
            }
        }
    }
}

/// The huge page takes the place of the small ones.
proof fn lemma_remapped(
    w: Window,
    before: Space,
    s: Space,
    frames: Map<usize, u8>,
    new_pa: usize,
    list: Seq<usize>,
    faults: Seq<usize>,
    flags: MappingFlags,
    elsewhere: spec_fn(usize) -> nat,
)
    requires
        w.ok(),
        w.ready(before, s, frames, new_pa, elsewhere),
        w.progress(before, s, new_pa, list, w.mapped(s.table)),
        w.missing(s.table, faults, faults.len() as int, 512),
        w.rights(before.table, 512) == Some(flags),
    ensures
        ({
            let after = Space {
                table: placed(s.table, w.first(), new_pa as int, PageSize::Size2M, flags),
                ..s
            };
            let more = all_incremented(frames, new_pa, THP_NR_4K_PAGES as nat);
            w.collapsed(
                before,
                after.all_performed(list_dropped(more, list)),
                list_decremented(more, list),
                new_pa,
                flags,
                elsewhere,
            )
        }),
{
    let p0 = w.first();
    let t = s.table;
    let u = placed(t, p0, new_pa as int, PageSize::Size2M, flags);
    let after = Space { table: u, ..s };
    let more = all_incremented(frames, new_pa, THP_NR_4K_PAGES as nat);
    let left = list_decremented(more, list);
    let end = after.all_performed(list_dropped(more, list));
    lemma_list_only_freed(more, list);
    lemma_only_freed(after, list_dropped(more, list));
    lemma_recounted(w, before, s, frames, new_pa, list, flags, elsewhere);
    lemma_old_frames(w, before, s, frames, new_pa, list, after, elsewhere);
    lemma_window(w, p0);
    assert forall|q: int| same_block(p0, q, PageSize::Size2M) && #[trigger] t.dom().contains(q) implies small_pages(
        t[q].size,
    ) <= small_pages(PageSize::Size2M) by {
        lemma_window(w, q);
    }
    lemma_placed(t, p0, new_pa as int, PageSize::Size2M, flags);
    assert forall|p: int| within(w.range, p) implies #[trigger] u.dom().contains(p) && u[p].size is Size2M
        && u[p].flags == flags && u[p].paddr == w.slot(new_pa, p) && w.copied(before, end, new_pa, p) by {
        lemma_window(w, p);
        if t.dom().contains(p) {
            assert(w.mapped(t).contains(p));
            assert(w.copied(before, s, new_pa, p));
        } else {
            assert(!w.mapped(t).contains(p));
            assert(w.blank(s, new_pa, p));
            if w.fault_in {
                assert(listed(faults, faults.len() as int, p));
            }
            assert(!before.table.dom().contains(p));
        }
    }
    assert forall|p: int| !within(w.range, p) implies #[trigger] alike(u, before.table, p) by {
        lemma_window(w, p);
        assert(alike(u, t, p));
        assert(alike(t, before.table, p));
    }
    assert(alone(u, w.range, PageSize::Size4K, left)) by {
        assert forall|p: int| #[trigger]
            u.dom().contains(p) && within(w.range, p) && leads(p, PageSize::Size4K)
                && u[p].flags.writable() implies count(left, u[p].paddr as usize) == 1 by {
            lemma_window(w, p);
            assert(u[p].paddr == sub_frame(new_pa, p - p0));
        }
    }
    assert(tiled(u, w.range, PageSize::Size4K)) by {
        assert forall|p: int| #[trigger] u.dom().contains(p) && within(w.range, p) implies u[p].size
            is Size4K || u[p].size is Size2M by {
            lemma_window(w, p);
        }
    }
}

/// The new frame is there.
proof fn lemma_new_frame(
    w: Window,
    before: Space,
    s: Space,
    frames: Map<usize, u8>,
    new_pa: usize,
    elsewhere: spec_fn(usize) -> nat,
)
    requires
        w.ok(),
        sound(before, w.range, PageSize::Size4K, frames, elsewhere),
        before.answers(
            Request::AllocFrame { zeroed: true, size: PageSize::Size2M },
            Reply::Addr(new_pa),
            s,
        ),
    ensures
        w.ready(before, s, frames, new_pa, elsewhere),
        w.progress(before, s, new_pa, Seq::empty(), w.mapped_below(s.table, 0)),
        w.missing(s.table, Seq::empty(), 0, 0),
        s.table == before.table,
        s.free == before.free.difference(area(new_pa as int, PAGE_SIZE_2M as int)),
{
    let t = s.table;
    let taken = area(new_pa as int, PAGE_SIZE_2M as int);
    assert forall|a: int| new_pa <= a < new_pa + PAGE_SIZE_2M implies #[trigger] before.free.contains(a) by {
        assert(taken.contains(a));
    }
    assert forall|a: int| new_pa <= a < new_pa + PAGE_SIZE_2M implies !#[trigger] s.free.contains(a) by {
        assert(taken.contains(a));
    }
    assert forall|a: int| #[trigger] s.mem[a] == if new_pa <= a < new_pa + PAGE_SIZE_2M {
        0u8
    } else {
        before.mem[a]
    } by {}
    assert forall|p: int| #[trigger] t.dom().contains(p) && within(w.range, p) implies {
        &&& taken_up(s, p)
        &&& holds_expected(w.backend, before, s, p)
        &&& w.aside(t, new_pa, p)
    } by {
        assert(taken_up(before, p));
        if !w.aside(t, new_pa, p) {
            if t[p].paddr >= new_pa {
                assert(before.free.contains(t[p].paddr));
            } else {
                assert(before.free.contains(new_pa as int));
                assert(!before.free.contains(new_pa as int));
            }
        }
    }
    assert forall|f: usize| #[trigger] count(frames, f) > 0 implies !s.free.contains(f as int) by {}
    assert(in_use(s, w.range, frames));
    assert(undisturbed(w.backend, w.range, before, s));
    assert forall|i: int| 0 <= i < THP_NR_4K_PAGES implies count(frames, #[trigger] sub_frame(new_pa, i))
        == 0 by {
        assert(sub_frame(new_pa, i) == new_pa + i * PAGE_SIZE_4K);
        assert(before.free.contains(sub_frame(new_pa, i) as int));
    }
    let none = w.mapped_below(t, 0);
    assert forall|p: int| !#[trigger] none.contains(p) by {
        lemma_window(w, p);
    }
    assert forall|p: int| within(w.range, p) && !#[trigger] none.contains(p) implies w.blank(s, new_pa, p) by {
        lemma_window(w, p);
    }
    assert forall|f: usize| #[trigger] occurrences(Seq::<usize>::empty(), f) == chosen(
        t,
        w.range,
        f,
        none,
    ).len() by {
        assert(chosen(t, w.range, f, none) =~= Set::empty());
    }
    assert(w.missing(t, Seq::empty(), 0, 0)) by {
        assert forall|p: int| #![trigger t.dom().contains(p)] within(w.range, p) && p < w.first() + 0
            && !t.dom().contains(p) implies listed(Seq::empty(), 0, p) by {
            lemma_window(w, p);
        }
    }
}

/// The collapse turns to a missing page, or maps the huge one.
proof fn lemma_faults(
    b: CollapseRun,
    m: CowCollapseView,
    effects: Seq<Effect>,
    before: Space,
    s: Space,
    w: Window,
    elsewhere: spec_fn(usize) -> nat,
)
    requires
        w.ok(),
        m.backend == w.backend,
        m.range == w.range,
        m.fault_in == w.fault_in,
        m.flags is Some,
        w.between(m, before, s.all_performed(effects), b.frames, elsewhere),
        ({
            let r = m.faulting(b.frames, effects);
            &&& b.machine == r.next
            &&& b.turn == Some(r.turn)
            &&& b.space == s.all_performed(r.effects)
            &&& b.frames == r.frames
        }),
    ensures
        collapse_invariant(b, w, before, elsewhere),
{
    let now = s.all_performed(effects);
    if m.at < m.faults.len() {
        let va = m.faults[m.at as int];
        let flags = m.flags.unwrap();
        let wish = w.bringing(va, flags);
        lemma_can_bring(w, m, before, now, b.frames, elsewhere);
        lemma_wish_ok(w, va, flags);
        let frames = b.frames;
        let here = |f: usize| count(frames, f);
        let start = PopulateRun {
            machine: w.backend.populate_of(wish.range, wish.flags, wish.access),
            frames,
            space: now,
            turn: None,
        };
        assert(populate_invariant(start, wish, now, here));
        let one = populate_resumed(start, Reply::Start, now);
        lemma_populate_moves(start, one, wish, now, here);
        assert(now.all_performed(Seq::empty()) == now);
        assert(effects + Seq::<Effect>::empty() =~= effects);
        assert(m.bringing() == start.machine);
        let request = Request::Query { va };
        assert(one.turn == Some(Turn::<usize>::Ask(request)));
        assert(w.populating(b, request, before, now, frames, elsewhere));
    }
}

/// The collapse turns to the next page of the window, or to the missing ones.
proof fn lemma_scans(
    b: CollapseRun,
    m: CowCollapseView,
    effects: Seq<Effect>,
    before: Space,
    s: Space,
    w: Window,
    elsewhere: spec_fn(usize) -> nat,
)
    requires
        w.ok(),
        m.backend == w.backend,
        m.range == w.range,
        m.fault_in == w.fault_in,
        w.scanning(
            CollapseRun {
                machine: m,
                frames: b.frames,
                space: s.all_performed(effects),
                turn: None,
            },
            before,
            elsewhere,
        ),
        ({
            let r = m.scanning(b.frames, effects);
            &&& b.machine == r.next
            &&& b.turn == Some(r.turn)
            &&& b.space == s.all_performed(r.effects)
            &&& b.frames == r.frames
        }),
    ensures
        collapse_invariant(b, w, before, elsewhere),
{
    let now = s.all_performed(effects);
    assert(m.pages.len() == 512);
    if m.at < m.pages.len() {
    } else if m.flags is None {
        let back = seq![Effect::FreeFrame { paddr: m.new_pa, size: PageSize::Size2M }];
        assert(m.giving_back() =~= back);
        lemma_performed_behind(s, effects, back);
        assert(back.drop_last() =~= Seq::<Effect>::empty());
        assert(now.all_performed(Seq::empty()) == now);
        let frame = area(m.new_pa as int, PAGE_SIZE_2M as int);
        assert(b.space.free =~= before.free) by {
            assert forall|a: int| #[trigger] frame.contains(a) implies before.free.contains(a) by {}
        }
    } else {
        assert(w.mapped_below(now.table, 512) =~= w.mapped(now.table)) by {
            assert forall|p: int| #[trigger] w.mapped_below(now.table, 512).contains(p) == w.mapped(
                now.table,
            ).contains(p) by {
                lemma_window(w, p);
            }
        }
        lemma_faults(b, CowCollapseView { at: 0, ..m }, effects, before, s, w, elsewhere);
    }
}

/// A page of the window is looked at.
proof fn lemma_looked_at(
    a: CollapseRun,
    b: CollapseRun,
    reply: Reply,
    request: Request,
    w: Window,
    before: Space,
    elsewhere: spec_fn(usize) -> nat,
)
    requires
        w.ok(),
        collapse_invariant(a, w, before, elsewhere),
        a.machine.state is AwaitEntry,
        a.turn == Some(Turn::<()>::Ask(request)),
        a.space.answers(request, reply, a.space),
        b == collapse_resumed(a, reply, a.space),
    ensures
        collapse_invariant(b, w, before, elsewhere),
{
    reveal(CowCollapseView::after);
    let m = a.machine;
    let s = a.space;
    let t = s.table;
    let i = m.at as int;
    let va = m.pages[i];
    let p = w.first() + i;
    lemma_window(w, p);
    assert(va == w.range.start + i * PAGE_SIZE_4K);
    assert(number(va) == p && va as int % PAGE_SIZE_4K as int == 0);
    assert(s.all_performed(Seq::empty()) == s);
    assert(w.rights(t, i + 1) == if m.flags is None && t.dom().contains(p) {
        Some(t[p].flags)
    } else {
        m.flags
    });
    let below = w.mapped_below(t, i);
    let upto = w.mapped_below(t, i + 1);
    if t.dom().contains(p) {
        let frame = t[p].paddr as usize;
        let copy = m.copying(va, frame);
        let effects = seq![copy];
        assert(effects.drop_last() =~= Seq::<Effect>::empty());
        assert(s.all_performed(effects) == s.performed(copy));
        assert(w.slot(m.new_pa, p) == m.new_pa + (va - w.range.start));
        assert(!below.contains(p));
        lemma_one_copied(w, before, s, a.frames, m.new_pa, m.old_pages, below, p, elsewhere);
        assert(below.insert(p) =~= upto);
        let next = CowCollapseView {
            flags: if m.flags is None {
                Some(t[p].flags)
            } else {
                m.flags
            },
            old_pages: m.old_pages.push(frame),
            at: m.at + 1,
            ..m
        };
        assert(w.missing(t, m.faults, 0, i + 1)) by {
            assert forall|q: int| #![trigger t.dom().contains(q)] w.fault_in && within(w.range, q) && q
                < w.first() + (i + 1) && !t.dom().contains(q) implies listed(m.faults, 0, q) by {
                assert(q != p);
            }
        }
        lemma_scans(b, next, effects, before, s, w, elsewhere);
    } else {
        assert(below =~= upto) by {
            assert forall|q: int| #[trigger] below.contains(q) == upto.contains(q) by {}
        }
        let faults = if w.fault_in {
            m.faults.push(va)
        } else {
            m.faults
        };
        let next = CowCollapseView { faults, at: m.at + 1, ..m };
        assert(w.missing(t, faults, 0, i + 1)) by {
            assert forall|k: int| 0 <= k < faults.len() implies {
                &&& (#[trigger] faults[k]) as int % PAGE_SIZE_4K as int == 0
                &&& within(w.range, number(faults[k]))
                &&& number(faults[k]) < w.first() + (i + 1)
                &&& !t.dom().contains(number(faults[k]))
            } by {
                if k < m.faults.len() {
                    assert(faults[k] == m.faults[k]);
                }
            }
            assert forall|j: int, k: int| 0 <= j < k < faults.len() implies #[trigger] faults[j]
                != #[trigger] faults[k] by {
                assert(faults[j] == m.faults[j]);
                assert(number(m.faults[j]) < w.first() + i);
                if k < m.faults.len() {
                    assert(faults[k] == m.faults[k]);
                }
            }
            assert forall|q: int| #![trigger t.dom().contains(q)] w.fault_in && within(w.range, q) && q
                < w.first() + (i + 1) && !t.dom().contains(q) implies listed(faults, 0, q) by {
                if q == p {
                    assert(faults[m.faults.len() as int] == va);
                } else {
                    assert(listed(m.faults, 0, q));
                    let k = choose|k: int| 0 <= k < m.faults.len() && number(#[trigger] m.faults[k]) == q;
                    assert(faults[k] == m.faults[k]);
                }
            }
        }
        lemma_scans(b, next, Seq::empty(), before, s, w, elsewhere);
    }
}

/// A step of the population of a missing page.
proof fn lemma_population_goes_on(
    a: CollapseRun,
    b: CollapseRun,
    reply: Reply,
    request: Request,
    answered: Space,
    w: Window,
    before: Space,
    elsewhere: spec_fn(usize) -> nat,
)
    requires
        w.ok(),
        collapse_invariant(a, w, before, elsewhere),
        a.machine.state is AwaitPopulate,
        a.turn == Some(Turn::<()>::Ask(request)),
        a.space.answers(request, reply, answered),
        b == collapse_resumed(a, reply, answered),
    ensures
        collapse_invariant(b, w, before, elsewhere),
{
    reveal(CowCollapseView::after);
    let m = a.machine;
    let (mid, counted) = choose|mid: Space, counted: Map<usize, u8>| #[trigger]
        w.populating(a, request, before, mid, counted, elsewhere);
    let va = m.faults[m.at as int];
    let wish = w.bringing(va, m.flags.unwrap());
    let here = |f: usize| count(counted, f);
    let from = PopulateRun {
        machine: m.populate,
        frames: a.frames,
        space: a.space,
        turn: Some(Turn::Ask(request)),
    };
    let to = populate_resumed(from, reply, answered);
    lemma_can_bring(w, m, before, mid, counted, elsewhere);
    lemma_populate_moves(from, to, wish, mid, here);
    let s = m.populate.after(a.frames, reply);
    assert(Seq::<Effect>::empty() + s.effects =~= s.effects);
    match s.turn {
        Turn::Ask(next) => {
            assert(w.populating(b, next, before, mid, counted, elsewhere));
        },
        Turn::Finished(result) => {
            lemma_brought(
                w,
                m,
                before,
                mid,
                counted,
                to.space,
                to.frames,
                result.unwrap(),
                elsewhere,
            );
        },
    }
}

/// A page that was brought in is copied.
proof fn lemma_fault_copied(
    a: CollapseRun,
    b: CollapseRun,
    reply: Reply,
    request: Request,
    w: Window,
    before: Space,
    elsewhere: spec_fn(usize) -> nat,
)
    requires
        w.ok(),
        collapse_invariant(a, w, before, elsewhere),
        a.machine.state is AwaitFaulted,
        a.turn == Some(Turn::<()>::Ask(request)),
        a.space.answers(request, reply, a.space),
        b == collapse_resumed(a, reply, a.space),
    ensures
        collapse_invariant(b, w, before, elsewhere),
{
    reveal(CowCollapseView::after);
    let m = a.machine;
    let s = a.space;
    let t = s.table;
    let va = m.faults[m.at as int];
    let cur = number(va);
    let frame = t[cur].paddr as usize;
    let copy = m.copying(va, frame);
    let effects = seq![copy];
    let done = w.mapped(t).remove(cur);
    lemma_window(w, cur);
    assert(effects.drop_last() =~= Seq::<Effect>::empty());
    assert(s.all_performed(Seq::empty()) == s);
    assert(s.all_performed(effects) == s.performed(copy));
    assert(va == cur * PAGE_SIZE_4K);
    assert(w.slot(m.new_pa, cur) == m.new_pa + (va - w.range.start));
    lemma_one_copied(w, before, s, a.frames, m.new_pa, m.old_pages, done, cur, elsewhere);
    assert(done.insert(cur) =~= w.mapped(t));
    let next = CowCollapseView { old_pages: m.old_pages.push(frame), at: m.at + 1, ..m };
    lemma_faults(b, next, effects, before, s, w, elsewhere);
}

/// A stage of a collapse is followed by a stage of it.
pub proof fn lemma_collapse_moves(
    a: CollapseRun,
    b: CollapseRun,
    w: Window,
    before: Space,
    elsewhere: spec_fn(usize) -> nat,
)
    requires
        w.ok(),
        collapse_invariant(a, w, before, elsewhere),
        collapse_moves(a, b),
    ensures
        collapse_invariant(b, w, before, elsewhere),
{
    reveal(CowCollapseView::after);
    let m = a.machine;
    match a.turn {
        None => {
            assert(a.space.all_performed(Seq::empty()) == a.space);
        },
        Some(Turn::Ask(request)) => {
            let (reply, answered) = choose|reply: Reply, s: Space| #[trigger]
                a.space.answers(request, reply, s) && b == collapse_resumed(a, reply, s);
            match m.state {
                CowCollapseState::AwaitFrame => {
                    let new_pa = reply->Addr_0;
                    lemma_new_frame(w, before, answered, a.frames, new_pa, elsewhere);
                    assert(answered.all_performed(Seq::empty()) == answered);
                    assert(w.range.start as int % 2_097_152 == 0);
                    assert(w.range.aligned_to(PageSize::Size4K)) by {
                        assert(w.range.start as int % 4096 == 0);
                        assert(w.range.end as int % 4096 == 0);
                    }
                    let next = CowCollapseView {
                        new_pa,
                        pages: page_starts(
                            w.range.start as int,
                            w.range.end as int,
                            PAGE_SIZE_4K as int,
                        ),
                        at: 0,
                        ..m
                    };
                    assert(m.old_pages =~= Seq::empty());
                    assert(m.faults =~= Seq::empty());
                    lemma_scans(b, next, Seq::empty(), before, answered, w, elsewhere);
                },
                CowCollapseState::AwaitEntry => {
                    lemma_looked_at(a, b, reply, request, w, before, elsewhere);
                },
                CowCollapseState::AwaitPopulate => {
                    lemma_population_goes_on(a, b, reply, request, answered, w, before, elsewhere);
                },
                CowCollapseState::AwaitFaulted => {
                    lemma_fault_copied(a, b, reply, request, w, before, elsewhere);
                },
                CowCollapseState::AwaitRemap => {
                    lemma_remapped(
                        w,
                        before,
                        a.space,
                        a.frames,
                        m.new_pa,
                        m.old_pages,
                        m.faults,
                        m.flags.unwrap(),
                        elsewhere,
                    );
                },
                _ => {},
            }
        },
        Some(Turn::Finished(_)) => {},
    }
}

proof fn lemma_collapse_stages(
    stages: Seq<CollapseRun>,
    i: int,
    w: Window,
    before: Space,
    elsewhere: spec_fn(usize) -> nat,
)
    requires
        w.ok(),
        collapse_runs(stages),
        0 <= i < stages.len(),
        collapse_invariant(stages[0], w, before, elsewhere),
    ensures
        collapse_invariant(stages[i], w, before, elsewhere),
    decreases i,
{
    if i > 0 {
        lemma_collapse_stages(stages, i - 1, w, before, elsewhere);
        assert(collapse_moves(stages[i - 1], stages[i - 1 + 1]));
        lemma_collapse_moves(stages[i - 1], stages[i], w, before, elsewhere);
    }
}

/// A collapse of a window of which a page is there succeeds, and maps the window to
/// one huge page in which every small
/// page holds what it held before, and a missing one what was brought in or
/// zeros. The page has the rights of the first mapped page of the window. All other
/// pages, and memory that belonged to anybody, are as they were. The frames are
/// counted right: each of the new frame has one mapping, and of the old ones those
/// are given back of which no mapping is left, and no others. Without a page in the
/// window a collapse fails, and leaves everything as it was.
pub proof fn law_collapse_keeps_the_contents(
    stages: Seq<CollapseRun>,
    w: Window,
    m: CowCollapse,
    frames: Map<usize, u8>,
    before: Space,
    elsewhere: spec_fn(usize) -> nat,
)
    requires
        w.ok(),
        sound(before, w.range, PageSize::Size4K, frames, elsewhere),
        call_ensures(CowBackend::collapse_page, (&w.backend, w.range, w.fault_in), m),
        collapse_runs(stages),
        stages[0] == (CollapseRun { machine: m@, frames, space: before, turn: None }),
        stages.last().turn matches Some(Turn::Finished(_)),
    ensures
        stages.last().turn matches Some(Turn::Finished(result)) && w.ended(
            before,
            stages.last(),
            result,
            elsewhere,
        ),
{
    lemma_collapse_stages(stages, stages.len() - 1, w, before, elsewhere);
}

/// The frames of a list that are counted off are given back, once each, exactly
/// if no mapping of them is left.
pub proof fn law_list_gives_back_the_last(m: Map<usize, u8>, list: Seq<usize>)
    requires
        counts_ok(m),
        forall|f: usize| #[trigger] occurrences(list, f) <= count(m, f),
    ensures
        list_dropped(m, list).no_duplicates(),
        forall|f: usize| #[trigger]
            given_back(list_dropped(m, list), f, PageSize::Size4K) == (occurrences(list, f) > 0 && count(
                list_decremented(m, list),
                f,
            ) == 0),
    decreases list.len(),
{
    let all = list_dropped(m, list);
    if list.len() == 0 {
        assert forall|f: usize| !#[trigger] given_back(all, f, PageSize::Size4K) by {}
    } else {
        let front = list.drop_last();
        assert forall|f: usize| #[trigger] occurrences(front, f) <= count(m, f) by {
            assert(occurrences(list, f) <= count(m, f));
        }
        law_list_gives_back_the_last(m, front);
        lemma_list_decremented(m, front);
        lemma_list_decremented(m, list);
        let before = list_dropped(m, front);
        let mid = list_decremented(m, front);
        let last = list.last();
        let more = dropped(mid, last, PageSize::Size4K);
        let e = Effect::FreeFrame { paddr: last, size: PageSize::Size4K };
        assert(occurrences(list, last) <= count(m, last));
        assert(count(mid, last) == count(m, last) - occurrences(front, last));
        if count(mid, last) == 1 {
            assert(!given_back(before, last, PageSize::Size4K));
            assert(all =~= before.push(e));
        } else {
            assert(all =~= before);
        }
        assert forall|f: usize| #[trigger] given_back(all, f, PageSize::Size4K) == (occurrences(list, f)
            > 0 && count(list_decremented(m, list), f) == 0) by {
            let x = Effect::FreeFrame { paddr: f, size: PageSize::Size4K };
            assert(given_back(before, f, PageSize::Size4K) == (occurrences(front, f) > 0 && count(mid, f)
                == 0));
            assert(occurrences(list, f) <= count(m, f));
            assert(count(mid, f) == count(m, f) - occurrences(front, f));
            assert(count(list_decremented(m, list), f) == count(m, f) - occurrences(list, f));
            if count(mid, last) == 1 {
                if before.contains(x) {
                    let i = choose|i: int| 0 <= i < before.len() && before[i] == x;
                    assert(all[i] == x);
                }
                if f == last {
                    assert(all[before.len() as int] == x);
                }
                if all.contains(x) {
                    let i = choose|i: int| 0 <= i < all.len() && all[i] == x;
                    if i < before.len() {
                        assert(before[i] == x);
                    }
                }
            }
        }
    }
}

} // verus!
