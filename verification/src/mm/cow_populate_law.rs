//! Bringing private memory in changes nothing that anybody else sees.

use vstd::prelude::*;
use crate::addr::{PageSize, VirtAddrRange, PAGE_SIZE_4K};
use crate::effect::{Effect, Reply, Request, Turn};
use crate::flags::MappingFlags;
use crate::fs::world::{area, available};
use crate::mm::cow::CowBackend;
use crate::mm::cow_populate::{filling, CowPopulate, CowPopulateState};
use crate::mm::frames::{count, counts_ok, decremented, incremented};
use crate::mm::space::{
    accounted, alike, divided, leads, lemma_block_at, lemma_divided, lemma_fits, lemma_leader,
    lemma_placed, lemma_placed_uses, lemma_protected, lemma_used, number, placed, protected,
    same_block, small_pages, table_ok, tiled, users, uses, within, Space, PageEntry,
};

verus! {

/// A population in its space: where it stands, and what it waits for or ended
/// with.
pub struct PopulateRun {
    pub machine: CowPopulate,
    pub frames: Map<usize, u8>,
    pub space: Space,
    pub turn: Option<Turn<usize>>,
}

/// The population after a reply from the space `space`.
pub open spec fn populate_resumed(a: PopulateRun, reply: Reply, space: Space) -> PopulateRun {
    let s = a.machine.after(a.frames, reply);
    PopulateRun {
        machine: s.next,
        frames: s.frames,
        space: space.all_performed(s.effects),
        turn: Some(s.turn),
    }
}

/// Whether a population can go from `a` to `b`: it starts, or its request is
/// answered.
pub open spec fn populate_moves(a: PopulateRun, b: PopulateRun) -> bool {
    match a.turn {
        None => b == populate_resumed(a, Reply::Start, a.space),
        Some(Turn::Ask(request)) => exists|reply: Reply, space: Space| #[trigger]
            a.space.answers(request, reply, space) && b == populate_resumed(a, reply, space),
        Some(Turn::Finished(_)) => false,
    }
}

/// Whether a population goes through the given stages.
pub open spec fn populate_runs(stages: Seq<PopulateRun>) -> bool {
    &&& stages.len() > 0
    &&& forall|i: int|
        0 <= i < stages.len() - 1 ==> populate_moves(#[trigger] stages[i], stages[i + 1])
}

/// The byte that private memory holds at first at an address: that of the file as
/// far behind its start as the address is behind the start of the mapping, if the
/// file goes so far and the mapped part does, else a zero.
pub open spec fn first_byte(backend: CowBackend, file: Seq<u8>, a: int) -> u8 {
    match backend.file {
        Some(backing) => {
            let offset = backing.file_start + (a - backend.start);
            let mapped = match backing.file_end {
                Some(end) => offset < end,
                None => true,
            };
            if a >= backend.start && offset < file.len() && mapped {
                file[offset]
            } else {
                0
            }
        },
        None => 0,
    }
}

/// The byte `i` of a page that is brought in at an address.
pub open spec fn fresh(backend: CowBackend, file: Seq<u8>, va: usize, i: int) -> u8 {
    first_byte(backend, file, va + i)
}

/// The byte `i` that a small page is to hold: the one that it held, or, if it
/// was not there, that of the page that is brought in.
pub open spec fn expected(backend: CowBackend, before: Space, p: int, i: int) -> u8 {
    if before.table.dom().contains(p) {
        before.mem[before.table[p].paddr + i]
    } else {
        let first = p - p % small_pages(backend.size);
        fresh(
            backend,
            before.file,
            (first * PAGE_SIZE_4K) as usize,
            (p - first) * PAGE_SIZE_4K + i,
        )
    }
}

/// Whether a small page holds what it is to hold.
pub open spec fn holds_expected(backend: CowBackend, before: Space, after: Space, p: int) -> bool {
    forall|a: int|
        after.table[p].paddr <= a < after.table[p].paddr + PAGE_SIZE_4K ==> #[trigger] after.mem[a]
            == expected(backend, before, p, a - after.table[p].paddr)
}

/// Whether the memory of a small page belongs to somebody.
pub open spec fn taken_up(s: Space, p: int) -> bool {
    forall|a: int|
        s.table[p].paddr <= a < s.table[p].paddr + PAGE_SIZE_4K ==> !#[trigger] s.free.contains(a)
}

/// Whether private memory is sound: the counts are right, a page that may be
/// written is the only one with its frame, and no memory that is in use belongs
/// to nobody.
pub open spec fn sound(
    s: Space,
    range: VirtAddrRange,
    size: PageSize,
    frames: Map<usize, u8>,
    elsewhere: spec_fn(usize) -> nat,
) -> bool {
    let t = s.table;
    &&& table_ok(t)
    &&& tiled(t, range, size)
    &&& counts_ok(frames)
    &&& accounted(t, range, size, frames, elsewhere)
    &&& in_use(s, range, frames)
    &&& alone(t, range, size, frames)
}

/// Whether a page that may be written is the only one with its frame.
pub open spec fn alone(
    t: Map<int, PageEntry>,
    range: VirtAddrRange,
    size: PageSize,
    frames: Map<usize, u8>,
) -> bool {
    forall|p: int| #[trigger]
        t.dom().contains(p) && within(range, p) && leads(p, size) && t[p].flags.writable() ==> count(
            frames,
            t[p].paddr as usize,
        ) == 1
}

/// Whether no memory that is in use belongs to nobody.
pub open spec fn in_use(s: Space, range: VirtAddrRange, frames: Map<usize, u8>) -> bool {
    &&& forall|frame: usize| #[trigger] count(frames, frame) > 0 ==> !s.free.contains(frame as int)
    &&& forall|p: int| #[trigger] s.table.dom().contains(p) && within(range, p) ==> taken_up(s, p)
}

/// Whether a page that was there has the rights that it had, unless it is to be
/// written and might not be, and any other has the given ones.
pub open spec fn rightly(
    t: Map<int, PageEntry>,
    t0: Map<int, PageEntry>,
    p: int,
    write: bool,
    flags: MappingFlags,
) -> bool {
    t[p].flags == (if t0.dom().contains(p) && (!write || t0[p].flags.bits & 2 == 2) {
        t0[p].flags
    } else {
        flags
    })
}

/// Whether the pages below an address are there, and may be written if that is
/// wanted, and all others are mapped as they were. A page that was there keeps its
/// rights, unless it is to be written and might not be; any other has the given ones.
pub open spec fn brought_in(
    t: Map<int, PageEntry>,
    t0: Map<int, PageEntry>,
    range: VirtAddrRange,
    va: int,
    write: bool,
    flags: MappingFlags,
) -> bool {
    forall|p: int|
        if within(range, p) && p * PAGE_SIZE_4K < va {
            &&& #[trigger] t.dom().contains(p)
            &&& write ==> t[p].flags.writable()
            &&& rightly(t, t0, p, write, flags)
        } else {
            alike(t, t0, p)
        }
}

/// Whether memory that belonged to somebody is unchanged, every mapped page of
/// the range holds what it is to hold, and new pages lie in memory that belonged
/// to nobody.
pub open spec fn undisturbed(
    backend: CowBackend,
    range: VirtAddrRange,
    before: Space,
    after: Space,
) -> bool {
    &&& after.file == before.file
    &&& after.copy == before.copy
    &&& after.free.subset_of(before.free)
    &&& forall|a: int| !before.free.contains(a) ==> #[trigger] after.mem[a] == before.mem[a]
    &&& forall|p: int| #[trigger]
        after.table.dom().contains(p) && within(range, p) ==> holds_expected(backend, before, after, p)
            && (!before.table.dom().contains(p) ==> from_free(before, after, p))
}

/// Whether the memory of a small page belonged to nobody before.
pub open spec fn from_free(before: Space, after: Space, p: int) -> bool {
    forall|a: int|
        after.table[p].paddr <= a < after.table[p].paddr + PAGE_SIZE_4K
            ==> #[trigger] before.free.contains(a)
}

/// The pages below an address that satisfy an access.
pub open spec fn satisfying(
    t: Map<int, PageEntry>,
    range: VirtAddrRange,
    size: PageSize,
    va: int,
    access: MappingFlags,
) -> Set<int> {
    Set::new(
        |p: int|
            t.dom().contains(p) && within(range, p) && p * PAGE_SIZE_4K < va && leads(p, size)
                && t[p].flags.contains(access),
    )
}

/// What a population is asked for.
pub struct Wish {
    pub backend: CowBackend,
    pub range: VirtAddrRange,
    pub flags: MappingFlags,
    pub access: MappingFlags,
}

impl Wish {
    /// Whether a population can be asked for: the range is one, and the rights
    /// allow the access.
    pub open spec fn ok(self) -> bool {
        &&& self.range.low(self.backend.size)
        &&& self.range.aligned_to(self.backend.size)
        &&& self.backend.can_fill(self.range)
        &&& self.flags.contains(self.access)
        &&& self.access.writable() ==> self.flags.writable()
    }

    /// Whether a population has come to an address.
    pub open spec fn reached(
        self,
        frames: Map<usize, u8>,
        before: Space,
        s: Space,
        va: int,
        pages: usize,
        elsewhere: spec_fn(usize) -> nat,
    ) -> bool {
        let size = self.backend.size;
        &&& sound(s, self.range, size, frames, elsewhere)
        &&& undisturbed(self.backend, self.range, before, s)
        &&& brought_in(s.table, before.table, self.range, va, self.access.writable(), self.flags)
        &&& pages == satisfying(s.table, self.range, size, va, self.access).len()
    }
}

/// What holds of a page that has been given a new frame which is not mapped yet.
pub open spec fn framed(
    w: Wish,
    frames: Map<usize, u8>,
    before: Space,
    s: Space,
    va: usize,
    paddr: usize,
    pages: usize,
    elsewhere: spec_fn(usize) -> nat,
) -> bool {
    let size = w.backend.size;
    let p = number(va);
    let t = s.table;
    &&& table_ok(t)
    &&& tiled(t, w.range, size)
    &&& counts_ok(frames)
    &&& undisturbed(w.backend, w.range, before, s)
    &&& brought_in(t, before.table, w.range, va as int, w.access.writable(), w.flags)
    &&& pages == satisfying(t, w.range, size, va as int, w.access).len()
    &&& in_use(s, w.range, frames)
    &&& alone(t.remove(p), w.range, size, frames)
    &&& t.dom().contains(p) ==> w.access.writable() && !t[p].flags.writable()
    &&& paddr + size.bytes() <= usize::MAX
    &&& count(frames, paddr) == 1
    &&& forall|a: int|
        paddr <= a < paddr + size.bytes() ==> !#[trigger] s.free.contains(a) && before.free.contains(a)
    &&& forall|q: int| #[trigger]
        t.dom().contains(q) && within(w.range, q) ==> t[q].paddr + PAGE_SIZE_4K <= paddr || paddr
            + size.bytes() <= t[q].paddr
    &&& accounted(placed(t, p, paddr as int, size, w.flags), w.range, size, frames, elsewhere)
}

/// Whether a new frame holds what the page at an address is to hold.
pub open spec fn filled(w: Wish, before: Space, s: Space, va: usize, paddr: usize) -> bool {
    forall|a: int|
        paddr <= a < paddr + w.backend.size.bytes() ==> #[trigger] s.mem[a] == whole(
            w.backend,
            before,
            va,
            a - paddr,
        )
}

/// Whether a new frame holds zeros.
pub open spec fn blank(w: Wish, s: Space, paddr: usize) -> bool {
    forall|a: int| paddr <= a < paddr + w.backend.size.bytes() ==> #[trigger] s.mem[a] == 0
}

/// The byte `i` that the page at an address is to hold.
pub open spec fn whole(backend: CowBackend, before: Space, va: usize, i: int) -> u8 {
    if before.table.dom().contains(number(va)) {
        before.mem[before.table[number(va)].paddr + i]
    } else {
        fresh(backend, before.file, va, i)
    }
}

/// What holds at every stage of a population.
pub open spec fn populate_invariant(
    r: PopulateRun,
    w: Wish,
    before: Space,
    elsewhere: spec_fn(usize) -> nat,
) -> bool {
    let m = r.machine;
    let t = r.space.table;
    let size = w.backend.size;
    let p = number(m.va);
    &&& m.backend == w.backend
    &&& m.range == w.range
    &&& m.flags == w.flags
    &&& m.access_flags == w.access
    &&& match r.turn {
        None => m.state is Begin && m.va == w.range.start && m.pages == 0 && r.space == before && sound(
            before,
            w.range,
            size,
            r.frames,
            elsewhere,
        ),
        Some(Turn::Ask(request)) => {
            &&& w.range.start <= m.va < w.range.end
            &&& m.va as int % size.bytes() as int == 0
            &&& match m.state {
                CowPopulateState::AwaitEntry => {
                    &&& request == (Request::Query { va: m.va })
                    &&& w.reached(r.frames, before, r.space, m.va as int, m.pages, elsewhere)
                },
                CowPopulateState::AwaitSplit => {
                    &&& request == (Request::SplitHuge { va: m.va })
                    &&& w.reached(r.frames, before, r.space, m.va as int, m.pages, elsewhere)
                    &&& size is Size4K
                    &&& t.dom().contains(p)
                    &&& t[p].size is Size2M
                },
                CowPopulateState::AwaitProtect => {
                    &&& request == (Request::Protect { va: m.va, flags: w.flags })
                    &&& w.reached(r.frames, before, r.space, m.va as int, m.pages, elsewhere)
                    &&& t.dom().contains(p)
                    &&& t[p].size == size
                    &&& w.access.writable()
                    &&& !t[p].flags.writable()
                    &&& count(r.frames, t[p].paddr as usize) == 1
                },
                CowPopulateState::AwaitCopy => {
                    &&& request == (Request::AllocFrame { zeroed: false, size })
                    &&& t.dom().contains(p)
                    &&& t[p].size == size
                    &&& w.access.writable()
                    &&& !t[p].flags.writable()
                    &&& m.frame == t[p].paddr
                    &&& counts_ok(r.frames)
                    &&& count(r.frames, m.frame) < u8::MAX
                    &&& w.reached(
                        incremented(r.frames, m.frame),
                        before,
                        r.space,
                        m.va as int,
                        m.pages,
                        elsewhere,
                    )
                    &&& count(r.frames, m.frame) > 0
                },
                CowPopulateState::AwaitFrame => {
                    &&& request == (Request::AllocFrame { zeroed: true, size })
                    &&& !t.dom().contains(p)
                    &&& w.reached(r.frames, before, r.space, m.va as int, m.pages, elsewhere)
                },
                CowPopulateState::AwaitRemap => {
                    &&& t.dom().contains(p)
                    &&& t[p].size == size
                    &&& request matches Request::Remap { va, paddr, flags } && va == m.va && flags
                        == w.flags && framed(
                        w,
                        r.frames,
                        before,
                        r.space,
                        m.va,
                        paddr,
                        m.pages,
                        elsewhere,
                    ) && filled(w, before, r.space, m.va, paddr)
                },
                CowPopulateState::AwaitFill => {
                    &&& !t.dom().contains(p)
                    &&& w.backend.file matches Some(backing) && ({
                        let (gap, len, offset) = filling(w.backend, backing, m.va);
                        request == Request::FileRead {
                            paddr: (m.frame + gap) as usize,
                            len: len as usize,
                            offset: offset as u64,
                        }
                    })
                    &&& framed(
                        w,
                        r.frames,
                        before,
                        r.space,
                        m.va,
                        m.frame,
                        m.pages,
                        elsewhere,
                    )
                    &&& blank(w, r.space, m.frame)
                },
                CowPopulateState::AwaitMap => {
                    &&& !t.dom().contains(p)
                    &&& request == (Request::MapPage {
                        va: m.va,
                        paddr: m.frame,
                        size,
                        flags: w.flags,
                    })
                    &&& framed(
                        w,
                        r.frames,
                        before,
                        r.space,
                        m.va,
                        m.frame,
                        m.pages,
                        elsewhere,
                    )
                    &&& filled(w, before, r.space, m.va, m.frame)
                },
                _ => false,
            }
        },
        Some(Turn::Finished(result)) => {
            &&& result matches Ok(n) && w.reached(
                r.frames,
                before,
                r.space,
                w.range.end as int,
                n,
                elsewhere,
            )
        },
    }
}

/// The pages that satisfy an access are finitely many.
proof fn lemma_satisfying_finite(
    t: Map<int, PageEntry>,
    range: VirtAddrRange,
    size: PageSize,
    va: int,
    access: MappingFlags,
)
    requires
        0 <= va,
    ensures
        satisfying(t, range, size, va, access).finite(),
        satisfying(t, range, size, va, access).len() <= va,
{
    let all = vstd::set_lib::set_int_range(0, va);
    vstd::set_lib::lemma_int_range(0, va);
    let u = satisfying(t, range, size, va, access);
    assert(u.subset_of(all)) by {
        assert forall|p: int| u.contains(p) implies #[trigger] all.contains(p) by {
            assert(within(range, p));
        }
    }
    vstd::set_lib::lemma_len_subset(u, all);
}

/// The small pages of the page at an address.
proof fn lemma_here(w: Wish, t: Map<int, PageEntry>, va: usize)
    requires
        w.ok(),
        table_ok(t),
        tiled(t, w.range, w.backend.size),
        w.range.start <= va < w.range.end,
        va as int % w.backend.size.bytes() as int == 0,
    ensures
        leads(number(va), w.backend.size),
        within(w.range, number(va)),
        number(va) * PAGE_SIZE_4K == va,
        va + w.backend.size.bytes() <= w.range.end,
        (va + w.backend.size.bytes()) % w.backend.size.bytes() as int == 0,
        forall|q: int| #[trigger]
            same_block(number(va), q, w.backend.size) == (va <= q * PAGE_SIZE_4K < va
                + w.backend.size.bytes()),
        forall|q: int| #[trigger]
            same_block(number(va), q, w.backend.size) && leads(q, w.backend.size) ==> q == number(va),
        forall|q: int| #[trigger]
            same_block(number(va), q, w.backend.size) ==> within(w.range, q) && q - q % small_pages(
                w.backend.size,
            ) == number(va),
        !t.dom().contains(number(va)) ==> forall|q: int|
            same_block(number(va), q, w.backend.size) ==> !#[trigger] t.dom().contains(q),
{
    let size = w.backend.size;
    let p = number(va);
    lemma_block_at(va, size, p);
    lemma_fits(va, w.range, size);
    assert forall|q: int| #[trigger] same_block(p, q, size) == (va <= q * PAGE_SIZE_4K < va
        + size.bytes()) by {
        lemma_block_at(va, size, q);
    }
    assert forall|q: int| #[trigger] same_block(p, q, size) && leads(q, size) implies q == p by {
        lemma_leader(p, q, size);
    }
    assert forall|q: int| #[trigger] same_block(p, q, size) implies within(w.range, q) && q - q
        % small_pages(size) == p by {
        lemma_leader(p, q, size);
        match size {
            PageSize::Size4K => {
                assert(small_pages(size) == 1);
                assert(q % 1 == 0);
            },
            PageSize::Size2M => {
                assert(small_pages(size) == 512);
                assert(p % 512 == 0);
            },
            PageSize::Size1G => {
                assert(small_pages(size) == 262_144);
                assert(p % 262_144 == 0);
            },
        }
    }
    if !t.dom().contains(p) {
        assert forall|q: int| same_block(p, q, size) implies !#[trigger] t.dom().contains(q) by {
            if t.dom().contains(q) {
                if t[q].size == size {
                    assert(same_block(q, p, t[q].size));
                } else {
                    assert(size is Size4K);
                    assert(p / 1 == p && q / 1 == q);
                }
            }
        }
    }
}

/// A page that satisfies an access or not is added to those below it.
proof fn lemma_one_more_satisfied(
    t: Map<int, PageEntry>,
    u: Map<int, PageEntry>,
    w: Wish,
    va: usize,
    pages: usize,
)
    requires
        w.ok(),
        table_ok(t),
        tiled(t, w.range, w.backend.size),
        w.range.start <= va < w.range.end,
        va as int % w.backend.size.bytes() as int == 0,
        pages == satisfying(t, w.range, w.backend.size, va as int, w.access).len(),
        u.dom().contains(number(va)),
        forall|q: int|
            !same_block(number(va), q, w.backend.size) ==> #[trigger] u.dom().contains(q)
                == t.dom().contains(q),
        forall|q: int|
            !same_block(number(va), q, w.backend.size) && #[trigger] t.dom().contains(q)
                ==> u[q].flags == t[q].flags,
    ensures
        satisfying(
            u,
            w.range,
            w.backend.size,
            va + w.backend.size.bytes(),
            w.access,
        ).len() == pages + if u[number(va)].flags.contains(w.access) {
            1int
        } else {
            0
        },
        pages < usize::MAX,
{
    let size = w.backend.size;
    let p = number(va);
    let next = va + size.bytes();
    let below = satisfying(t, w.range, size, va as int, w.access);
    let now = satisfying(u, w.range, size, next, w.access);
    lemma_here(w, t, va);
    lemma_satisfying_finite(t, w.range, size, va as int, w.access);
    assert forall|q: int| #[trigger] now.contains(q) == (below.contains(q) || (q == p
        && u[p].flags.contains(w.access))) by {
        if same_block(p, q, size) {
        } else {
            assert(u.dom().contains(q) == t.dom().contains(q));
        }
    }
    if u[p].flags.contains(w.access) {
        assert(now =~= below.insert(p));
        assert(!below.contains(p));
    } else {
        assert(now =~= below);
    }
}

/// A page that is there and need not change is passed.
proof fn lemma_passed(
    w: Wish,
    frames: Map<usize, u8>,
    before: Space,
    s: Space,
    va: usize,
    pages: usize,
    elsewhere: spec_fn(usize) -> nat,
)
    requires
        w.ok(),
        w.range.start <= va < w.range.end,
        va as int % w.backend.size.bytes() as int == 0,
        w.reached(frames, before, s, va as int, pages, elsewhere),
        s.table.dom().contains(number(va)),
        s.table[number(va)].size == w.backend.size,
        w.access.writable() ==> s.table[number(va)].flags.writable(),
    ensures
        ({
            let satisfied = s.table[number(va)].flags.contains(w.access);
            &&& pages < usize::MAX
            &&& w.reached(
                frames,
                before,
                s,
                va + w.backend.size.bytes(),
                if satisfied {
                    (pages + 1) as usize
                } else {
                    pages
                },
                elsewhere,
            )
        }),
{
    let t = s.table;
    let p = number(va);
    let size = w.backend.size;
    let next = va + size.bytes();
    lemma_here(w, t, va);
    lemma_one_more_satisfied(t, t, w, va, pages);
    assert forall|q: int|
        if within(w.range, q) && q * PAGE_SIZE_4K < next {
            &&& #[trigger] t.dom().contains(q)
            &&& w.access.writable() ==> t[q].flags.writable()
            &&& rightly(t, before.table, q, w.access.writable(), w.flags)
        } else {
            alike(t, before.table, q)
        } by {
        if same_block(p, q, size) {
            assert(same_block(p, q, t[p].size));
        }
        assert(t.dom().contains(q) || !t.dom().contains(q));
    }
    assert(brought_in(t, before.table, w.range, next, w.access.writable(), w.flags));
}

/// A page becomes one that may be written.
proof fn lemma_made_writable(
    w: Wish,
    frames: Map<usize, u8>,
    before: Space,
    s: Space,
    va: usize,
    pages: usize,
    elsewhere: spec_fn(usize) -> nat,
)
    requires
        w.ok(),
        w.range.start <= va < w.range.end,
        va as int % w.backend.size.bytes() as int == 0,
        w.reached(frames, before, s, va as int, pages, elsewhere),
        s.table.dom().contains(number(va)),
        s.table[number(va)].size == w.backend.size,
        count(frames, s.table[number(va)].paddr as usize) == 1,
        w.access.writable(),
        !s.table[number(va)].flags.writable(),
    ensures
        pages < usize::MAX,
        w.reached(
            frames,
            before,
            Space { table: protected(s.table, number(va), w.flags), ..s },
            va + w.backend.size.bytes(),
            (pages + 1) as usize,
            elsewhere,
        ),
{
    let t = s.table;
    let p = number(va);
    let size = w.backend.size;
    let next = va + size.bytes();
    let u = protected(t, p, w.flags);
    let s2 = Space { table: u, ..s };
    lemma_here(w, t, va);
    lemma_protected(t, p, w.flags);
    assert(same_block(p, p, size));
    lemma_one_more_satisfied(t, u, w, va, pages);
    assert(brought_in(u, before.table, w.range, next, w.access.writable(), w.flags)) by {
        assert forall|q: int|
            if within(w.range, q) && q * PAGE_SIZE_4K < next {
                &&& #[trigger] u.dom().contains(q)
                &&& w.access.writable() ==> u[q].flags.writable()
                &&& rightly(u, before.table, q, w.access.writable(), w.flags)
            } else {
                alike(u, before.table, q)
            } by {
            assert(u.dom().contains(q) == t.dom().contains(q));
            if same_block(p, q, size) {
                assert(same_block(p, q, t[p].size));
            } else {
                assert(alike(u, t, q));
            }
        }
    }
    assert forall|f: usize| #[trigger] count(frames, f) == elsewhere(f) + uses(u, w.range, size, f) by {
        assert(users(u, w.range, size, f) =~= users(t, w.range, size, f));
    }
    assert forall|q: int| #[trigger] u.dom().contains(q) && within(w.range, q) implies taken_up(s2, q)
        && holds_expected(w.backend, before, s2, q) && (!before.table.dom().contains(q) ==> from_free(
        before,
        s2,
        q,
    )) by {
        assert(t.dom().contains(q));
        assert(taken_up(s, q) && holds_expected(w.backend, before, s, q));
        assert(u[q].paddr == t[q].paddr);
    }
    assert forall|q: int| #[trigger]
        u.dom().contains(q) && within(w.range, q) && leads(q, size) && u[q].flags.writable() implies count(
        frames,
        u[q].paddr as usize,
    ) == 1 by {
        assert(t.dom().contains(q));
    }
    assert(tiled(u, w.range, size)) by {
        assert forall|q: int| #[trigger] u.dom().contains(q) && within(w.range, q) implies u[q].size
            == size || (size is Size4K && u[q].size is Size2M) by {
            assert(t.dom().contains(q));
        }
    }
}

/// A huge page is divided.
proof fn lemma_split_up(
    w: Wish,
    frames: Map<usize, u8>,
    before: Space,
    s: Space,
    va: usize,
    pages: usize,
    elsewhere: spec_fn(usize) -> nat,
)
    requires
        w.ok(),
        w.backend.size is Size4K,
        w.reached(frames, before, s, va as int, pages, elsewhere),
        s.table.dom().contains(number(va)),
        s.table[number(va)].size is Size2M,
    ensures
        w.reached(
            frames,
            before,
            Space { table: divided(s.table, number(va)), ..s },
            va as int,
            pages,
            elsewhere,
        ),
{
    let t = s.table;
    let p = number(va);
    let size = w.backend.size;
    let u = divided(t, p);
    let s2 = Space { table: u, ..s };
    lemma_divided(t, p);
    assert(brought_in(u, before.table, w.range, va as int, w.access.writable(), w.flags)) by {
        assert forall|q: int|
            if within(w.range, q) && q * PAGE_SIZE_4K < va {
                #[trigger] u.dom().contains(q) && (w.access.writable() ==> u[q].flags.writable())
            } else {
                alike(u, before.table, q)
            } by {
            assert(u.dom().contains(q) == t.dom().contains(q));
            assert(alike(u, t, q));
        }
    }
    assert forall|f: usize| #[trigger] count(frames, f) == elsewhere(f) + uses(u, w.range, size, f) by {
        assert(users(u, w.range, size, f) =~= users(t, w.range, size, f));
    }
    assert(satisfying(u, w.range, size, va as int, w.access) =~= satisfying(
        t,
        w.range,
        size,
        va as int,
        w.access,
    ));
    assert forall|q: int| #[trigger] u.dom().contains(q) && within(w.range, q) implies taken_up(s2, q)
        && holds_expected(w.backend, before, s2, q) && (!before.table.dom().contains(q) ==> from_free(
        before,
        s2,
        q,
    )) by {
        assert(t.dom().contains(q));
        assert(taken_up(s, q) && holds_expected(w.backend, before, s, q));
        assert(u[q].paddr == t[q].paddr);
    }
    assert forall|q: int| #[trigger]
        u.dom().contains(q) && within(w.range, q) && leads(q, size) && u[q].flags.writable() implies count(
        frames,
        u[q].paddr as usize,
    ) == 1 by {
        assert(t.dom().contains(q));
    }
    assert(tiled(u, w.range, size)) by {
        assert forall|q: int| #[trigger] u.dom().contains(q) && within(w.range, q) implies u[q].size
            == size || (size is Size4K && u[q].size is Size2M) by {
            assert(t.dom().contains(q));
        }
    }
}

/// A page gets a new frame.
proof fn lemma_framed(
    w: Wish,
    balanced: Map<usize, u8>,
    frames: Map<usize, u8>,
    before: Space,
    s: Space,
    s2: Space,
    va: usize,
    paddr: usize,
    pages: usize,
    elsewhere: spec_fn(usize) -> nat,
)
    requires
        w.ok(),
        w.range.start <= va < w.range.end,
        va as int % w.backend.size.bytes() as int == 0,
        w.reached(balanced, before, s, va as int, pages, elsewhere),
        counts_ok(frames),
        if s.table.dom().contains(number(va)) {
            let old_frame = s.table[number(va)].paddr as usize;
            &&& s.table[number(va)].size == w.backend.size
            &&& !s.table[number(va)].flags.writable()
            &&& w.access.writable()
            &&& 0 < count(frames, old_frame) < u8::MAX
            &&& balanced == incremented(frames, old_frame)
        } else {
            balanced == frames
        },
        paddr + w.backend.size.bytes() <= usize::MAX,
        area(paddr as int, w.backend.size.bytes() as int).subset_of(s.free),
        s2.table == s.table,
        s2.copy == s.copy,
        s2.file == s.file,
        s2.free == s.free.difference(area(paddr as int, w.backend.size.bytes() as int)),
        forall|a: int|
            !(paddr <= a < paddr + w.backend.size.bytes()) ==> #[trigger] s2.mem[a] == s.mem[a],
    ensures
        framed(w, incremented(frames, paddr), before, s2, va, paddr, pages, elsewhere),
{
    let t = s.table;
    let p = number(va);
    let size = w.backend.size;
    let counted = incremented(frames, paddr);
    let new_area = area(paddr as int, size.bytes() as int);
    lemma_here(w, t, va);
    assert forall|a: int| paddr <= a < paddr + size.bytes() implies #[trigger] s.free.contains(a) by {
        assert(new_area.contains(a));
    }
    assert forall|a: int| #[trigger] s2.free.contains(a) implies s.free.contains(a) && !(paddr <= a
        < paddr + size.bytes()) by {
        assert(!new_area.contains(a));
    }
    assert(count(balanced, paddr) == 0) by {
        assert(s.free.contains(paddr as int));
    }
    assert(count(frames, paddr) == 0);
    assert(count(counted, paddr) == 1);
    assert forall|q: int| #[trigger] t.dom().contains(q) && within(w.range, q) implies t[q].paddr
        + PAGE_SIZE_4K <= paddr || paddr + size.bytes() <= t[q].paddr by {
        assert(taken_up(s, q));
        if t[q].paddr + PAGE_SIZE_4K > paddr && paddr + size.bytes() > t[q].paddr {
            if t[q].paddr >= paddr {
                assert(s.free.contains(t[q].paddr));
            } else {
                assert(s.free.contains(paddr as int));
            }
        }
    }
    assert forall|q: int| #[trigger] t.dom().contains(q) && within(w.range, q) implies taken_up(s2, q)
        && holds_expected(w.backend, before, s2, q) by {
        assert(taken_up(s, q) && holds_expected(w.backend, before, s, q));
        assert forall|a: int| t[q].paddr <= a < t[q].paddr + PAGE_SIZE_4K implies #[trigger] s2.mem[a]
            == expected(w.backend, before, q, a - t[q].paddr) by {
            assert(s2.mem[a] == s.mem[a]);
        }
    }
    assert forall|f: usize| #[trigger] count(counted, f) > 0 implies !s2.free.contains(f as int) by {
        if f != paddr {
            assert(count(balanced, f) > 0);
        }
    }
    assert forall|q: int| #[trigger]
        t.remove(p).dom().contains(q) && within(w.range, q) && leads(q, size)
            && t.remove(p)[q].flags.writable() implies count(counted, t.remove(p)[q].paddr as usize)
        == 1 by {
        assert(t.dom().contains(q));
        assert(count(balanced, t[q].paddr as usize) == 1);
        assert(t[q].paddr as usize != paddr);
        if t.dom().contains(p) {
            let old_frame = t[p].paddr as usize;
            assert(count(balanced, old_frame) > 1);
        }
    }
    let u = placed(t, p, paddr as int, size, w.flags);
    assert forall|f: usize| #[trigger] count(counted, f) == elsewhere(f) + uses(u, w.range, size, f) by {
        lemma_placed_uses(t, w.range, p, paddr, size, w.flags, f);
        assert(count(balanced, f) == elsewhere(f) + uses(t, w.range, size, f));
    }
    assert forall|a: int| !before.free.contains(a) implies #[trigger] s2.mem[a] == before.mem[a] by {
        assert(!s.free.contains(a));
        assert(s.mem[a] == before.mem[a]);
    }
}

/// The new frame of a page is mapped.
proof fn lemma_mapped(
    w: Wish,
    frames: Map<usize, u8>,
    before: Space,
    s: Space,
    va: usize,
    paddr: usize,
    pages: usize,
    elsewhere: spec_fn(usize) -> nat,
)
    requires
        w.ok(),
        w.range.start <= va < w.range.end,
        va as int % w.backend.size.bytes() as int == 0,
        framed(w, frames, before, s, va, paddr, pages, elsewhere),
        filled(w, before, s, va, paddr),
        s.table.dom().contains(number(va)) ==> s.table[number(va)].size == w.backend.size,
    ensures
        pages < usize::MAX,
        w.reached(
            frames,
            before,
            Space {
                table: placed(s.table, number(va), paddr as int, w.backend.size, w.flags),
                ..s
            },
            va + w.backend.size.bytes(),
            (pages + 1) as usize,
            elsewhere,
        ),
{
    let t = s.table;
    let t0 = before.table;
    let p = number(va);
    let size = w.backend.size;
    let next = va + size.bytes();
    let u = placed(t, p, paddr as int, size, w.flags);
    let s2 = Space { table: u, ..s };
    lemma_here(w, t, va);
    assert(size.bytes() == small_pages(size) * PAGE_SIZE_4K);
    assert(same_block(p, p, size));
    assert forall|q: int| same_block(p, q, size) && #[trigger] t.dom().contains(q) implies small_pages(
        t[q].size,
    ) <= small_pages(size) by {
        if t.dom().contains(p) {
            assert(same_block(p, q, t[p].size));
        }
    }
    lemma_placed(t, p, paddr as int, size, w.flags);
    lemma_one_more_satisfied(t, u, w, va, pages);
    assert(brought_in(u, t0, w.range, next, w.access.writable(), w.flags)) by {
        assert forall|q: int|
            if within(w.range, q) && q * PAGE_SIZE_4K < next {
                &&& #[trigger] u.dom().contains(q)
                &&& w.access.writable() ==> u[q].flags.writable()
                &&& rightly(u, t0, q, w.access.writable(), w.flags)
            } else {
                alike(u, t0, q)
            } by {
            if !same_block(p, q, size) {
                assert(u.dom().contains(q) == t.dom().contains(q));
                assert(alike(u, t, q));
            } else {
                assert(t.dom().contains(q) || !t.dom().contains(q));
                assert(alike(t, t0, q));
                if t.dom().contains(q) {
                    assert(same_block(q, p, t[q].size));
                }
            }
        }
    }
    assert forall|q: int| #[trigger] u.dom().contains(q) && within(w.range, q) implies taken_up(s2, q)
        && holds_expected(w.backend, before, s2, q) by {
        if same_block(p, q, size) {
            lemma_leader(p, q, size);
            assert(u[q].paddr == paddr + (q - p) * PAGE_SIZE_4K);
            assert(t.dom().contains(p) || !t.dom().contains(p));
            assert(alike(t, t0, p));
            assert(t.dom().contains(q) || !t.dom().contains(q));
            assert(alike(t, t0, q));
            if t.dom().contains(p) {
                assert(same_block(p, q, t[p].size));
            }
            assert forall|a: int| u[q].paddr <= a < u[q].paddr + PAGE_SIZE_4K implies #[trigger] s2.mem[a]
                == expected(w.backend, before, q, a - u[q].paddr) by {
                assert(s.mem[a] == whole(w.backend, before, va, a - paddr));
            }
        } else {
            assert(t.dom().contains(q));
            assert(taken_up(s, q) && holds_expected(w.backend, before, s, q));
        }
    }
    assert forall|q: int| #[trigger]
        u.dom().contains(q) && within(w.range, q) && leads(q, size) && u[q].flags.writable() implies count(
        frames,
        u[q].paddr as usize,
    ) == 1 by {
        if !same_block(p, q, size) {
            assert(t.remove(p).dom().contains(q));
        }
    }
    assert(tiled(u, w.range, size)) by {
        assert forall|q: int| #[trigger] u.dom().contains(q) && within(w.range, q) implies u[q].size
            == size || (size is Size4K && u[q].size is Size2M) by {
            if !same_block(p, q, size) {
                assert(t.dom().contains(q));
            }
        }
    }
}

/// The file's bytes come into a new frame.
proof fn lemma_filled(
    w: Wish,
    frames: Map<usize, u8>,
    before: Space,
    s: Space,
    s2: Space,
    va: usize,
    paddr: usize,
    pages: usize,
    elsewhere: spec_fn(usize) -> nat,
)
    requires
        w.ok(),
        w.range.start <= va < w.range.end,
        va as int % w.backend.size.bytes() as int == 0,
        framed(w, frames, before, s, va, paddr, pages, elsewhere),
        blank(w, s, paddr),
        !s.table.dom().contains(number(va)),
        w.backend.file matches Some(backing) && ({
            let (gap, len, offset) = filling(w.backend, backing, va);
            s.answers(
                Request::FileRead {
                    paddr: (paddr + gap) as usize,
                    len: len as usize,
                    offset: offset as u64,
                },
                Reply::Done,
                s2,
            )
        }),
    ensures
        framed(w, frames, before, s2, va, paddr, pages, elsewhere),
        filled(w, before, s2, va, paddr),
{
    let backing = w.backend.file.unwrap();
    let size = w.backend.size;
    let t = s.table;
    let p = number(va);
    let (gap, len, offset) = filling(w.backend, backing, va);
    lemma_here(w, t, va);
    assert(alike(t, before.table, p));
    assert(0 <= gap && gap + len <= size.bytes() && 0 <= len);
    assert((paddr + gap) as usize == paddr + gap);
    assert(len as usize == len);
    assert(0 <= offset <= u64::MAX);
    assert(offset as u64 == offset);
    let n = available(s.file, offset as nat, len as nat);
    assert(n <= len);
    assert forall|a: int| #[trigger] s2.mem[a] == if paddr + gap <= a < paddr + gap + n {
        s.file[offset + (a - (paddr + gap))]
    } else {
        s.mem[a]
    } by {}
    assert forall|q: int| #[trigger] t.dom().contains(q) && within(w.range, q) implies taken_up(s2, q)
        && holds_expected(w.backend, before, s2, q) by {
        assert(taken_up(s, q) && holds_expected(w.backend, before, s, q));
        assert forall|a: int| t[q].paddr <= a < t[q].paddr + PAGE_SIZE_4K implies #[trigger] s2.mem[a]
            == expected(w.backend, before, q, a - t[q].paddr) by {
            assert(s2.mem[a] == s.mem[a]);
        }
    }
    assert forall|a: int| !before.free.contains(a) implies #[trigger] s2.mem[a] == before.mem[a] by {
        assert(s.mem[a] == before.mem[a]);
        if paddr <= a < paddr + size.bytes() {
            assert(!s.free.contains(a));
        }
    }
}

/// Turning to an address.
proof fn lemma_enters(
    b: PopulateRun,
    m: CowPopulate,
    w: Wish,
    before: Space,
    elsewhere: spec_fn(usize) -> nat,
)
    requires
        w.ok(),
        m.backend == w.backend,
        m.range == w.range,
        m.flags == w.flags,
        m.access_flags == w.access,
        w.range.start <= m.va <= w.range.end,
        m.va as int % w.backend.size.bytes() as int == 0,
        b.machine == m.entering(b.frames).next,
        b.turn == Some(m.entering(b.frames).turn),
        w.reached(b.frames, before, b.space, m.va as int, m.pages, elsewhere),
    ensures
        populate_invariant(b, w, before, elsewhere),
{
}

/// A page that is there is passed, made writable, split, or copied.
proof fn lemma_entry_found(
    a: PopulateRun,
    b: PopulateRun,
    w: Wish,
    before: Space,
    elsewhere: spec_fn(usize) -> nat,
)
    requires
        w.ok(),
        populate_invariant(a, w, before, elsewhere),
        a.turn matches Some(Turn::Ask(_)),
        a.machine.state is AwaitEntry,
        a.space.table.dom().contains(number(a.machine.va)),
        ({
            let found = a.space.table[number(a.machine.va)];
            b == populate_resumed(
                a,
                Reply::Entry {
                    paddr: found.paddr as usize,
                    flags: found.flags,
                    size: found.size,
                },
                a.space,
            )
        }),
    ensures
        populate_invariant(b, w, before, elsewhere),
{
    let m = a.machine;
    let t = a.space.table;
    let p = number(m.va);
    let size = w.backend.size;
    let frame = t[p].paddr as usize;
    lemma_here(w, t, m.va);
    assert(a.space.all_performed(Seq::empty()) == a.space);
    assert(users(t, w.range, size, frame).contains(p));
    lemma_used(t, w.range, size, frame, p);
    assert(count(a.frames, frame) == elsewhere(frame) + uses(t, w.range, size, frame));
    if t[p].size is Size2M && size is Size4K {
    } else if m.breaks(t[p].flags, t[p].size) {
        if count(a.frames, frame) > 1 {
            let left = decremented(a.frames, frame);
            assert(incremented(left, frame) =~= a.frames);
        }
    } else {
        lemma_passed(w, a.frames, before, a.space, m.va, m.pages, elsewhere);
        let satisfied = t[p].flags.contains(w.access);
        let next = CowPopulate {
            pages: if satisfied {
                (m.pages + 1) as usize
            } else {
                m.pages
            },
            va: (m.va + size.bytes()) as usize,
            ..m
        };
        lemma_enters(b, next, w, before, elsewhere);
    }
}

/// A stage of a population is followed by a stage of it.
#[verifier::rlimit(40)]
pub proof fn lemma_populate_moves(
    a: PopulateRun,
    b: PopulateRun,
    w: Wish,
    before: Space,
    elsewhere: spec_fn(usize) -> nat,
)
    requires
        w.ok(),
        populate_invariant(a, w, before, elsewhere),
        populate_moves(a, b),
    ensures
        populate_invariant(b, w, before, elsewhere),
{
    let m = a.machine;
    let t = a.space.table;
    let size = w.backend.size;
    match a.turn {
        None => {
            assert(a.space.all_performed(Seq::empty()) == a.space);
            lemma_start(a, w, before, elsewhere);
            lemma_enters(b, m, w, before, elsewhere);
        },
        Some(Turn::Ask(request)) => {
            let (reply, answered) = choose|reply: Reply, s: Space| #[trigger]
                a.space.answers(request, reply, s) && b == populate_resumed(a, reply, s);
            let p = number(m.va);
            let next = CowPopulate {
                pages: (m.pages + 1) as usize,
                va: (m.va + size.bytes()) as usize,
                ..m
            };
            assert(answered.all_performed(Seq::empty()) == answered);
            lemma_here(w, t, m.va);
            match m.state {
                CowPopulateState::AwaitEntry => {
                    if t.dom().contains(p) {
                        lemma_entry_found(a, b, w, before, elsewhere);
                    }
                },
                CowPopulateState::AwaitSplit => {
                    lemma_split_up(w, a.frames, before, a.space, m.va, m.pages, elsewhere);
                    lemma_enters(b, m, w, before, elsewhere);
                },
                CowPopulateState::AwaitProtect => {
                    lemma_made_writable(w, a.frames, before, a.space, m.va, m.pages, elsewhere);
                    lemma_enters(b, next, w, before, elsewhere);
                },
                CowPopulateState::AwaitCopy => {
                    lemma_copied(a, b, reply, answered, w, before, elsewhere);
                },
                CowPopulateState::AwaitFrame => {
                    lemma_blank_frame(a, b, reply, answered, w, before, elsewhere);
                },
                CowPopulateState::AwaitRemap => {
                    let paddr = request->Remap_paddr;
                    lemma_mapped(w, a.frames, before, a.space, m.va, paddr, m.pages, elsewhere);
                    lemma_enters(b, next, w, before, elsewhere);
                },
                CowPopulateState::AwaitFill => {
                    lemma_filled(
                        w,
                        a.frames,
                        before,
                        a.space,
                        answered,
                        m.va,
                        m.frame,
                        m.pages,
                        elsewhere,
                    );
                },
                CowPopulateState::AwaitMap => {
                    lemma_mapped(w, a.frames, before, a.space, m.va, m.frame, m.pages, elsewhere);
                    lemma_enters(b, next, w, before, elsewhere);
                },
                _ => {},
            }
        },
        Some(Turn::Finished(_)) => {},
    }
}

/// At the start of a range nothing was reached yet.
proof fn lemma_start(
    a: PopulateRun,
    w: Wish,
    before: Space,
    elsewhere: spec_fn(usize) -> nat,
)
    requires
        w.ok(),
        populate_invariant(a, w, before, elsewhere),
        a.turn is None,
    ensures
        w.reached(a.frames, before, before, w.range.start as int, 0, elsewhere),
{
    assert(satisfying(before.table, w.range, w.backend.size, w.range.start as int, w.access)
        =~= Set::empty());
    assert forall|p: int| #[trigger]
        before.table.dom().contains(p) && within(w.range, p) implies holds_expected(
        w.backend,
        before,
        before,
        p,
    ) by {}
    assert(brought_in(
        before.table,
        before.table,
        w.range,
        w.range.start as int,
        w.access.writable(),
        w.flags,
    ));
}

/// A page is copied into a new frame.
proof fn lemma_copied(
    a: PopulateRun,
    b: PopulateRun,
    reply: Reply,
    answered: Space,
    w: Wish,
    before: Space,
    elsewhere: spec_fn(usize) -> nat,
)
    requires
        w.ok(),
        populate_invariant(a, w, before, elsewhere),
        a.machine.state is AwaitCopy,
        a.turn matches Some(Turn::Ask(request)) && a.space.answers(request, reply, answered),
        b == populate_resumed(a, reply, answered),
    ensures
        populate_invariant(b, w, before, elsewhere),
{
    let m = a.machine;
    let t = a.space.table;
    let p = number(m.va);
    let size = w.backend.size;
    let bytes = size.bytes();
    let paddr = reply->Addr_0;
    let effect = Effect::Copy { src: m.frame, dst: paddr, len: bytes };
    lemma_here(w, t, m.va);
    let none = answered.all_performed(Seq::empty());
    assert(seq![effect].drop_last() =~= Seq::<Effect>::empty());
    assert(answered.all_performed(seq![effect]) == none.performed(effect));
    let s2 = answered.performed(effect);
    lemma_framed(
        w,
        incremented(a.frames, m.frame),
        a.frames,
        before,
        a.space,
        s2,
        m.va,
        paddr,
        m.pages,
        elsewhere,
    );
    assert(alike(t, before.table, p));
    assert forall|x: int| paddr <= x < paddr + bytes implies #[trigger] s2.mem[x] == whole(
        w.backend,
        before,
        m.va,
        x - paddr,
    ) by {
        let i = x - paddr;
        let from = m.frame + i;
        let q = p + i / PAGE_SIZE_4K as int;
        assert(s2.mem[x] == a.space.mem[from]);
        assert(same_block(p, q, size)) by {
            assert(p * PAGE_SIZE_4K == m.va);
            assert(m.va <= q * PAGE_SIZE_4K < m.va + bytes);
        }
        assert(same_block(p, q, t[p].size));
        assert(t.dom().contains(q) && within(w.range, q));
        assert(t[q].paddr <= from < t[q].paddr + PAGE_SIZE_4K);
        assert(holds_expected(w.backend, before, a.space, q));
        assert(alike(t, before.table, q));
    }
}

/// A page that is not there gets a new frame.
proof fn lemma_blank_frame(
    a: PopulateRun,
    b: PopulateRun,
    reply: Reply,
    answered: Space,
    w: Wish,
    before: Space,
    elsewhere: spec_fn(usize) -> nat,
)
    requires
        w.ok(),
        populate_invariant(a, w, before, elsewhere),
        a.machine.state is AwaitFrame,
        a.turn matches Some(Turn::Ask(request)) && a.space.answers(request, reply, answered),
        b == populate_resumed(a, reply, answered),
    ensures
        populate_invariant(b, w, before, elsewhere),
{
    let m = a.machine;
    let p = number(m.va);
    let paddr = reply->Addr_0;
    assert(answered.all_performed(Seq::empty()) == answered);
    lemma_framed(
        w,
        a.frames,
        a.frames,
        before,
        a.space,
        answered,
        m.va,
        paddr,
        m.pages,
        elsewhere,
    );
    assert(blank(w, answered, paddr));
    assert(alike(a.space.table, before.table, p));
    if w.backend.file is None {
        assert(filled(w, before, answered, m.va, paddr));
    }
}

proof fn lemma_populate_stages(
    stages: Seq<PopulateRun>,
    i: int,
    w: Wish,
    before: Space,
    elsewhere: spec_fn(usize) -> nat,
)
    requires
        w.ok(),
        populate_runs(stages),
        0 <= i < stages.len(),
        populate_invariant(stages[0], w, before, elsewhere),
    ensures
        populate_invariant(stages[i], w, before, elsewhere),
    decreases i,
{
    if i > 0 {
        lemma_populate_stages(stages, i - 1, w, before, elsewhere);
        assert(populate_moves(stages[i - 1], stages[i - 1 + 1]));
        lemma_populate_moves(stages[i - 1], stages[i], w, before, elsewhere);
    }
}

/// What the end of a population comes to.
proof fn lemma_populate_ends(
    end: PopulateRun,
    w: Wish,
    before: Space,
    elsewhere: spec_fn(usize) -> nat,
)
    requires
        populate_invariant(end, w, before, elsewhere),
        end.turn matches Some(Turn::Finished(_)),
    ensures
        ({
            let after = end.space;
            let size = w.backend.size;
            &&& sound(after, w.range, size, end.frames, elsewhere)
            &&& undisturbed(w.backend, w.range, before, after)
            &&& forall|p: int|
                within(w.range, p) ==> #[trigger] after.table.dom().contains(p) && (
                w.access.writable() ==> after.table[p].flags.writable())
            &&& forall|p: int|
                within(w.range, p) ==> #[trigger] rights_kept(
                    before.table,
                    after.table,
                    p,
                    w.access,
                    w.flags,
                )
            &&& forall|p: int|
                !within(w.range, p) ==> #[trigger] alike(after.table, before.table, p)
            &&& end.turn matches Some(Turn::Finished(Ok(n))) && n == satisfying(
                after.table,
                w.range,
                size,
                w.range.end as int,
                w.access,
            ).len()
        }),
{
    let t = end.space.table;
    let write = w.access.writable();
    assert(brought_in(t, before.table, w.range, w.range.end as int, write, w.flags));
    assert forall|p: int| within(w.range, p) implies #[trigger] t.dom().contains(p) && (write
        ==> t[p].flags.writable()) by {
        assert(p * PAGE_SIZE_4K < w.range.end as int);
        assert(t.dom().contains(p));
        assert(write ==> t[p].flags.writable());
    }
    assert forall|p: int| within(w.range, p) implies #[trigger] rights_kept(
        before.table,
        t,
        p,
        w.access,
        w.flags,
    ) by {
        assert(p * PAGE_SIZE_4K < w.range.end as int);
        assert(t.dom().contains(p));
        assert(rightly(t, before.table, p, write, w.flags));
    }
    assert forall|p: int| !within(w.range, p) implies #[trigger] alike(t, before.table, p) by {
        assert(t.dom().contains(p) || !t.dom().contains(p));
    }
}

/// A population brings every page of its range in, with the right to write if
/// that is wanted, and returns how many pages satisfy the access. A page that
/// was there holds what it held. One that was not holds at each address the byte of
/// the file as far behind the start of the mapped part as the address is behind the
/// start of the mapping, and zeros before that start, behind the end of the mapped
/// part and behind the end of the file. Memory that belonged to anybody is unchanged, pages outside of the
/// range are mapped as they were, and private memory stays sound: a page that
/// may be written is the only one with its frame.
pub proof fn law_populate_brings_the_range_in(
    stages: Seq<PopulateRun>,
    w: Wish,
    m: CowPopulate,
    frames: Map<usize, u8>,
    before: Space,
    elsewhere: spec_fn(usize) -> nat,
)
    requires
        w.ok(),
        sound(before, w.range, w.backend.size, frames, elsewhere),
        call_ensures(CowBackend::populate, (&w.backend, w.range, w.flags, w.access), m),
        populate_runs(stages),
        stages[0] == (PopulateRun { machine: m, frames, space: before, turn: None }),
        stages.last().turn matches Some(Turn::Finished(_)),
    ensures
        ({
            let after = stages.last().space;
            let size = w.backend.size;
            &&& sound(after, w.range, size, stages.last().frames, elsewhere)
            &&& undisturbed(w.backend, w.range, before, after)
            &&& forall|p: int|
                within(w.range, p) ==> #[trigger] reads_first(w.backend, before, after, p)
            &&& forall|p: int|
                within(w.range, p) ==> #[trigger] after.table.dom().contains(p) && (
                w.access.writable() ==> after.table[p].flags.writable())
            &&& forall|p: int|
                within(w.range, p) ==> #[trigger] rights_kept(
                    before.table,
                    after.table,
                    p,
                    w.access,
                    w.flags,
                )
            &&& forall|p: int|
                !within(w.range, p) ==> #[trigger] alike(after.table, before.table, p)
            &&& stages.last().turn matches Some(Turn::Finished(Ok(n))) && n == satisfying(
                after.table,
                w.range,
                size,
                w.range.end as int,
                w.access,
            ).len()
        }),
{
    assert(populate_invariant(stages[0], w, before, elsewhere));
    lemma_populate_stages(stages, stages.len() - 1, w, before, elsewhere);
    lemma_populate_ends(stages.last(), w, before, elsewhere);
    let after = stages.last().space;
    assert forall|p: int| within(w.range, p) implies #[trigger] reads_first(
        w.backend,
        before,
        after,
        p,
    ) by {
        assert(after.table.dom().contains(p));
        lemma_reads_first(w.backend, before, after, p, w.range);
    }
}

/// Whether a page that was there has the rights that it had, unless it is to be
/// written and might not be, and any other has the given ones.
pub open spec fn rights_kept(
    t0: Map<int, PageEntry>,
    t: Map<int, PageEntry>,
    p: int,
    access: MappingFlags,
    flags: MappingFlags,
) -> bool {
    t[p].flags == (if t0.dom().contains(p) && (access.bits & 2 != 2 || t0[p].flags.bits & 2 == 2) {
        t0[p].flags
    } else {
        flags
    })
}

/// Whether the addresses of a small page read what they read, or, if it was not
/// there, the bytes that private memory holds at first.
pub open spec fn reads_first(b: CowBackend, before: Space, after: Space, p: int) -> bool {
    &&& after.table.dom().contains(p)
    &&& forall|a: int|
        #![trigger after.mem[after.table[p].paddr + (a - p * 4096)]]
        p * 4096 <= a < p * 4096 + 4096 ==> after.mem[after.table[p].paddr + (a - p * 4096)] == (
        if before.table.dom().contains(p) {
            before.mem[before.table[p].paddr + (a - p * 4096)]
        } else {
            first_byte(b, before.file, a)
        })
}

proof fn lemma_reads_first(b: CowBackend, before: Space, after: Space, p: int, range: VirtAddrRange)
    requires
        after.table.dom().contains(p),
        holds_expected(b, before, after, p),
        within(range, p),
    ensures
        reads_first(b, before, after, p),
{
    let first = p - p % small_pages(b.size);
    assert(0 <= first <= p && first * 4096 <= usize::MAX) by {
        assert(0 <= p);
        match b.size {
            PageSize::Size4K => {
                assert(p % 1 == 0);
            },
            PageSize::Size2M => {
                assert(0 <= p % 512 <= p);
            },
            PageSize::Size1G => {
                assert(0 <= p % 262_144 <= p);
            },
        }
    }
    assert forall|a: int|
        #![trigger after.mem[after.table[p].paddr + (a - p * 4096)]]
        p * 4096 <= a < p * 4096 + 4096 implies after.mem[after.table[p].paddr + (a - p * 4096)] == (
    if before.table.dom().contains(p) {
        before.mem[before.table[p].paddr + (a - p * 4096)]
    } else {
        first_byte(b, before.file, a)
    }) by {
        let i = a - p * 4096;
        let at = after.table[p].paddr + i;
        assert(after.mem[at] == expected(b, before, p, at - after.table[p].paddr));
        assert((first * 4096) as usize + ((p - first) * 4096 + i) == a);
    }
}

/// In sound private memory a page that may be written is the only one with its
/// frame, in its range and elsewhere, so no other page sees what is written.
pub proof fn law_writable_page_is_not_shared(
    s: Space,
    range: VirtAddrRange,
    size: PageSize,
    frames: Map<usize, u8>,
    elsewhere: spec_fn(usize) -> nat,
    p: int,
)
    requires
        sound(s, range, size, frames, elsewhere),
        s.table.dom().contains(p),
        within(range, p),
        leads(p, size),
        s.table[p].flags.writable(),
    ensures
        elsewhere(s.table[p].paddr as usize) == 0,
        forall|q: int| #[trigger]
            s.table.dom().contains(q) && within(range, q) && leads(q, size) && q != p
                ==> s.table[q].paddr != s.table[p].paddr,
{
    let t = s.table;
    let frame = t[p].paddr as usize;
    let all = users(t, range, size, frame);
    assert(all.contains(p));
    lemma_used(t, range, size, frame, p);
    assert(count(frames, frame) == elsewhere(frame) + uses(t, range, size, frame));
    crate::mm::space::lemma_users_finite(t, range, size, frame);
    assert forall|q: int| #[trigger]
        t.dom().contains(q) && within(range, q) && leads(q, size) && q != p implies t[q].paddr
        != t[p].paddr by {
        if t[q].paddr == t[p].paddr {
            assert(all.contains(q));
            assert(all.remove(p).contains(q));
            assert(all.remove(p).len() == 0);
            assert(all.remove(p) =~= Set::empty());
        }
    }
}

} // verus!
