//! What an attempt to collapse a window decides and does.

use vstd::prelude::*;
use crate::addr::{page_starts, PageSize, VirtAddrRange, PAGE_SIZE_4K, THP_NR_4K_PAGES};
use crate::effect::{Reply, Request, Turn};
use crate::error::{AxError, PagingError};
use crate::fs::cache::{pages_ok, CacheView};
use crate::fs::chunks::apart;
use crate::fs::page::PageCache;
use crate::fs::recency::page_map;
use crate::mm::cow::CowBackend;
use crate::mm::cow_collapse_law::{
    collapse_invariant, collapse_resumed, lemma_collapse_moves, CollapseRun, Window,
};
use crate::mm::cow_populate_law::sound;
use crate::mm::cow_try::{CowTry, CowTryView, TryState};
use crate::mm::file::FileBackend;
use crate::mm::file_collapse_law::{
    answered_by_all, file_collapse_after, file_collapse_invariant, file_collapse_moves,
    lemma_file_collapse_moves, FileCollapseRun,
};
use crate::mm::file_try::{FileTry, FileTryView};
use crate::mm::frames::count;
use crate::mm::scan::{ScanView, Verdict};
use crate::mm::shared::{CacheStep, SharedBackend};
use crate::mm::shared_collapse_law::{
    answered_or_refused, collapsible, lemma_in_window, lemma_shared_collapse_moves,
    shared_collapse_invariant, shared_collapse_resumed, FileWindow, SharedCollapseRun,
};
use crate::mm::shared_try::{SharedTry, SharedTryView};
use crate::mm::space::{first_rights, number, PageEntry, Space};

verus! {

/// How many of the first `k` small pages from `p` on are not mapped.
pub open spec fn missing_in(t: Map<int, PageEntry>, p: int, k: int) -> int
    decreases k,
{
    if k <= 0 {
        0
    } else {
        missing_in(t, p, k - 1) + if t.dom().contains(p + k - 1) {
            0int
        } else {
            1
        }
    }
}

/// How many of the first `k` small pages from `p` on are mapped to a frame with more
/// than one mapping.
pub open spec fn shared_in(t: Map<int, PageEntry>, frames: Map<usize, u8>, p: int, k: int) -> int
    decreases k,
{
    if k <= 0 {
        0
    } else {
        shared_in(t, frames, p, k - 1) + if t.dom().contains(p + k - 1) && count(
            frames,
            t[p + k - 1].paddr as usize,
        ) > 1 {
            1int
        } else {
            0
        }
    }
}

/// Looking at more pages finds no less.
proof fn lemma_more(t: Map<int, PageEntry>, frames: Map<usize, u8>, p: int, j: int, k: int)
    requires
        0 <= j <= k,
    ensures
        0 <= missing_in(t, p, j) <= missing_in(t, p, k),
        0 <= shared_in(t, frames, p, j) <= shared_in(t, frames, p, k),
        missing_in(t, p, j) <= j,
        shared_in(t, frames, p, j) <= j,
    decreases k,
{
    if j < k {
        lemma_more(t, frames, p, j, k - 1);
    } else if k > 0 {
        lemma_more(t, frames, p, k - 1, k - 1);
    }
}

/// What an attempt is asked for: the window, and what it may find and look at.
pub struct Attempt {
    pub range: VirtAddrRange,
    pub max_none: usize,
    pub max_shared: usize,
    pub scanned: usize,
    pub to_scan: usize,
}

impl Attempt {
    /// The number of the first small page.
    pub open spec fn first(self) -> int {
        number(self.range.start)
    }

    /// Whether the window is to be collapsed: no more pages are missing and no more
    /// frames shared than may be, and there is budget for all pages of it.
    pub open spec fn passes(self, t: Map<int, PageEntry>, frames: Map<usize, u8>) -> bool {
        &&& missing_in(t, self.first(), 512) <= self.max_none
        &&& shared_in(t, frames, self.first(), 512) <= self.max_shared
        &&& self.scanned + 512 <= self.to_scan
    }

    /// The scan behind `k` pages.
    pub open spec fn scan(self, t: Map<int, PageEntry>, frames: Map<usize, u8>, k: int) -> ScanView {
        ScanView {
            pages: page_starts(
                self.range.start as int,
                self.range.end as int,
                PAGE_SIZE_4K as int,
            ),
            at: k as nat,
            none: missing_in(t, self.first(), k) as nat,
            shared: shared_in(t, frames, self.first(), k) as nat,
            max_none: self.max_none,
            max_shared: self.max_shared,
            scanned: (self.scanned + k) as usize,
            to_scan: self.to_scan,
        }
    }

    /// Whether the scan can stand before the page with the index `k`.
    pub open spec fn stands(self, t: Map<int, PageEntry>, frames: Map<usize, u8>, k: int) -> bool {
        &&& 0 <= k < 512
        &&& missing_in(t, self.first(), k) <= self.max_none
        &&& shared_in(t, frames, self.first(), k) <= self.max_shared
        &&& self.scanned + k < self.to_scan
    }

    /// The scan at the page with the index `k`, which is counted as looked at.
    pub open spec fn at(self, t: Map<int, PageEntry>, frames: Map<usize, u8>, k: int) -> ScanView {
        ScanView { scanned: (self.scanned + k + 1) as usize, ..self.scan(t, frames, k) }
    }
}

/// A scan turns to the page with the index `k`, passes or refuses.
proof fn lemma_looks(o: Attempt, t: Map<int, PageEntry>, frames: Map<usize, u8>, k: int)
    requires
        o.range.end - o.range.start == 2_097_152,
        o.range.start as int % 4096 == 0,
        0 <= k <= 512,
        missing_in(t, o.first(), k) <= o.max_none,
        shared_in(t, frames, o.first(), k) <= o.max_shared,
        o.scanned + k <= o.to_scan || k == 0,
    ensures
        ({
            let (next, verdict) = o.scan(t, frames, k).looking();
            match verdict {
                Verdict::Look(va) => {
                    &&& o.stands(t, frames, k)
                    &&& next == o.at(t, frames, k)
                    &&& va == o.range.start + k * 4096
                    &&& number(va) == o.first() + k
                    &&& va as int % 4096 == 0
                },
                Verdict::Refused => !o.passes(t, frames) && next == o.scan(t, frames, k),
                Verdict::Passed => k == 512 && o.passes(t, frames) && next == o.scan(t, frames, k),
            }
        }),
        o.scan(t, frames, k).pages.len() == 512,
{
    lemma_more(t, frames, o.first(), k, 512);
    assert(o.range.end as int % 4096 == 0);
    let va = o.range.start + k * 4096;
    assert(va % 4096 == 0 && va / 4096 == o.first() + k);
}

/// A scan takes note of the page with the index `k`.
proof fn lemma_notes(o: Attempt, t: Map<int, PageEntry>, frames: Map<usize, u8>, k: int, reply: Reply, shared: bool)
    requires
        o.range.end - o.range.start == 2_097_152,
        o.range.start as int % 4096 == 0,
        o.stands(t, frames, k),
        if t.dom().contains(o.first() + k) {
            reply is Entry && shared == (count(frames, t[o.first() + k].paddr as usize) > 1)
        } else {
            reply == Reply::Fault(PagingError::NotMapped)
        },
    ensures
        ({
            let noted = o.at(t, frames, k).noting(reply, shared);
            if missing_in(t, o.first(), k + 1) <= o.max_none && shared_in(
                t,
                frames,
                o.first(),
                k + 1,
            ) <= o.max_shared {
                noted == o.scan(t, frames, k + 1).looking()
            } else {
                &&& noted.1 is Refused
                &&& noted.0.scanned == o.scanned + k + 1
                &&& !o.passes(t, frames)
            }
        }),
{
    lemma_more(t, frames, o.first(), k, k + 1);
    lemma_more(t, frames, o.first(), k + 1, 512);
}

/// An attempt on private memory in its space.
pub struct CowTryRun {
    pub machine: CowTryView,
    pub frames: Map<usize, u8>,
    pub space: Space,
    pub turn: Option<Turn<bool>>,
}

/// The attempt after a reply from the space `space`.
pub open spec fn cow_try_resumed(a: CowTryRun, reply: Reply, space: Space) -> CowTryRun {
    let s = a.machine.after(a.frames, reply);
    CowTryRun {
        machine: s.next,
        frames: s.frames,
        space: space.all_performed(s.effects),
        turn: Some(s.turn),
    }
}

/// Whether an attempt can go from `a` to `b`: it starts, or its request is
/// answered.
pub open spec fn cow_try_moves(a: CowTryRun, b: CowTryRun) -> bool {
    match a.turn {
        None => b == cow_try_resumed(a, Reply::Start, a.space),
        Some(Turn::Ask(request)) => exists|reply: Reply, space: Space| #[trigger]
            a.space.answers(request, reply, space) && b == cow_try_resumed(a, reply, space),
        Some(Turn::Finished(_)) => false,
    }
}

/// Whether an attempt goes through the given stages.
pub open spec fn cow_try_runs(stages: Seq<CowTryRun>) -> bool {
    &&& stages.len() > 0
    &&& forall|i: int|
        0 <= i < stages.len() - 1 ==> cow_try_moves(#[trigger] stages[i], stages[i + 1])
}

/// Whether an attempt on private memory ended as it should.
pub open spec fn cow_try_ended(
    r: CowTryRun,
    result: Result<bool, AxError>,
    o: Attempt,
    w: Window,
    frames: Map<usize, u8>,
    before: Space,
    elsewhere: spec_fn(usize) -> nat,
) -> bool {
    if !o.passes(before.table, frames) {
        &&& result == Ok::<bool, AxError>(false)
        &&& r.space == before
        &&& r.frames == frames
        &&& r.machine.scan.scanned <= o.to_scan || r.machine.scan.scanned == o.scanned
    } else if first_rights(before.table, o.first(), THP_NR_4K_PAGES as int) is Some {
        &&& result == Ok::<bool, AxError>(true)
        &&& w.collapsed(
            before,
            r.space,
            r.frames,
            r.machine.collapse.new_pa,
            r.machine.collapse.flags.unwrap(),
            elsewhere,
        )
        &&& r.machine.scan.scanned == o.scanned + 512
    } else {
        &&& result == Err::<bool, AxError>(AxError::InvalidInput)
        &&& r.space.table == before.table
        &&& r.space.free == before.free
        &&& r.machine.scan.scanned == o.scanned + 512
    }
}

/// What holds at every stage of an attempt on private memory.
pub open spec fn cow_try_invariant(
    r: CowTryRun,
    o: Attempt,
    w: Window,
    frames: Map<usize, u8>,
    before: Space,
    elsewhere: spec_fn(usize) -> nat,
) -> bool {
    let m = r.machine;
    let t = before.table;
    let inner = CollapseRun {
        machine: m.collapse,
        frames: r.frames,
        space: r.space,
        turn: None,
    };
    &&& m.range == o.range
    &&& match r.turn {
        None => {
            &&& m.state is Begin
            &&& m.scan == (ScanView { pages: Seq::empty(), ..o.scan(t, frames, 0) })
            &&& r.space == before
            &&& r.frames == frames
            &&& collapse_invariant(inner, w, before, elsewhere)
        },
        Some(Turn::Ask(request)) => match m.state {
            TryState::AwaitEntry => {
                let k = m.scan.at as int;
                &&& o.stands(t, frames, k)
                &&& m.scan == o.at(t, frames, k)
                &&& request matches Request::Query { va } && number(va) == o.first() + k && va as int
                    % 4096 == 0
                &&& r.space == before
                &&& r.frames == frames
                &&& collapse_invariant(inner, w, before, elsewhere)
            },
            TryState::AwaitCollapse => {
                &&& o.passes(t, frames)
                &&& m.scan.scanned == o.scanned + 512
                &&& collapse_invariant(
                    CollapseRun { turn: Some(Turn::Ask(request)), ..inner },
                    w,
                    before,
                    elsewhere,
                )
            },
            _ => false,
        },
        Some(Turn::Finished(result)) => cow_try_ended(r, result, o, w, frames, before, elsewhere),
    }
}

/// The attempt follows the scan.
proof fn lemma_cow_follows(
    m: CowTryView,
    b: CowTryRun,
    k: int,
    o: Attempt,
    w: Window,
    frames: Map<usize, u8>,
    before: Space,
    elsewhere: spec_fn(usize) -> nat,
)
    requires
        w.ok(),
        w.range == o.range,
        m.range == o.range,
        o.range.end - o.range.start == 2_097_152,
        o.range.start as int % 4096 == 0,
        0 <= k <= 512,
        missing_in(before.table, o.first(), k) <= o.max_none,
        shared_in(before.table, frames, o.first(), k) <= o.max_shared,
        o.scanned + k <= o.to_scan || k == 0,
        collapse_invariant(
            CollapseRun { machine: m.collapse, frames, space: before, turn: None },
            w,
            before,
            elsewhere,
        ),
        ({
            let s = m.following(frames, o.scan(before.table, frames, k).looking());
            b == CowTryRun {
                machine: s.next,
                frames: s.frames,
                space: before.all_performed(s.effects),
                turn: Some(s.turn),
            }
        }),
    ensures
        cow_try_invariant(b, o, w, frames, before, elsewhere),
{
    let t = before.table;
    let (scan, verdict) = o.scan(t, frames, k).looking();
    lemma_looks(o, t, frames, k);
    assert(before.all_performed(Seq::empty()) == before);
    if verdict is Passed {
        let from = CollapseRun { machine: m.collapse, frames, space: before, turn: None };
        let to = collapse_resumed(from, Reply::Start, before);
        lemma_collapse_moves(from, to, w, before, elsewhere);
    }
}

/// A stage of an attempt is followed by a stage of it.
proof fn lemma_cow_try_moves(
    a: CowTryRun,
    b: CowTryRun,
    o: Attempt,
    w: Window,
    frames: Map<usize, u8>,
    before: Space,
    elsewhere: spec_fn(usize) -> nat,
)
    requires
        w.ok(),
        w.range == o.range,
        cow_try_invariant(a, o, w, frames, before, elsewhere),
        cow_try_moves(a, b),
        forall|p: int| #[trigger]
            before.table.dom().contains(p) ==> 0 <= before.table[p].paddr <= usize::MAX,
    ensures
        cow_try_invariant(b, o, w, frames, before, elsewhere),
{
    let m = a.machine;
    let t = before.table;
    assert(o.range.start as int % 2_097_152 == 0);
    assert(o.range.start as int % 4096 == 0 && o.range.end as int % 4096 == 0);
    match a.turn {
        None => {
            assert(o.range.aligned_to(PageSize::Size4K));
            lemma_cow_follows(m, b, 0, o, w, frames, before, elsewhere);
        },
        Some(Turn::Ask(request)) => {
            let (reply, answered) = choose|reply: Reply, s: Space| #[trigger]
                a.space.answers(request, reply, s) && b == cow_try_resumed(a, reply, s);
            if m.state is AwaitEntry {
                let k = m.scan.at as int;
                let shared = match reply {
                    Reply::Entry { paddr, .. } => count(frames, paddr) > 1,
                    _ => false,
                };
                lemma_notes(o, t, frames, k, reply, shared);
                assert(before.all_performed(Seq::empty()) == before);
                if missing_in(t, o.first(), k + 1) <= o.max_none && shared_in(
                    t,
                    frames,
                    o.first(),
                    k + 1,
                ) <= o.max_shared {
                    lemma_cow_follows(m, b, k + 1, o, w, frames, before, elsewhere);
                }
            } else {
                let from = CollapseRun {
                    machine: m.collapse,
                    frames: a.frames,
                    space: a.space,
                    turn: Some(Turn::Ask(request)),
                };
                let to = collapse_resumed(from, reply, answered);
                lemma_collapse_moves(from, to, w, before, elsewhere);
            }
        },
        Some(Turn::Finished(_)) => {},
    }
}

proof fn lemma_cow_try_stages(
    stages: Seq<CowTryRun>,
    i: int,
    o: Attempt,
    w: Window,
    frames: Map<usize, u8>,
    before: Space,
    elsewhere: spec_fn(usize) -> nat,
)
    requires
        w.ok(),
        w.range == o.range,
        cow_try_runs(stages),
        0 <= i < stages.len(),
        cow_try_invariant(stages[0], o, w, frames, before, elsewhere),
        forall|p: int| #[trigger]
            before.table.dom().contains(p) ==> 0 <= before.table[p].paddr <= usize::MAX,
    ensures
        cow_try_invariant(stages[i], o, w, frames, before, elsewhere),
    decreases i,
{
    if i > 0 {
        lemma_cow_try_stages(stages, i - 1, o, w, frames, before, elsewhere);
        assert(cow_try_moves(stages[i - 1], stages[i - 1 + 1]));
        lemma_cow_try_moves(stages[i - 1], stages[i], o, w, frames, before, elsewhere);
    }
}

/// An attempt collapses a window of private memory exactly if no more of its pages
/// are missing and no more of its frames shared than may be, and there is budget to
/// look at all of its pages. Then it counts those pages, and succeeds with the huge
/// page in place if a page of the window is there. Else it tells that nothing was
/// collapsed, and changes nothing.
pub proof fn law_attempt_collapses_what_is_worth_it(
    b: CowBackend,
    o: Attempt,
    m: CowTry,
    stages: Seq<CowTryRun>,
    frames: Map<usize, u8>,
    before: Space,
    elsewhere: spec_fn(usize) -> nat,
    done: CowTry,
    told: usize,
)
    requires
        (Window { backend: b, range: o.range, fault_in: false }).ok(),
        sound(before, o.range, PageSize::Size4K, frames, elsewhere),
        call_ensures(
            CowBackend::try_collapse_page,
            (&b, o.range, o.max_none, o.max_shared, o.scanned, o.to_scan),
            m,
        ),
        cow_try_runs(stages),
        stages[0] == (CowTryRun { machine: m@, frames, space: before, turn: None }),
        done@ == stages.last().machine,
        call_ensures(CowTry::pages_scanned, (&done,), told),
        stages.last().turn matches Some(Turn::Finished(_)),
    ensures
        o.passes(before.table, frames) ==> told == o.scanned + 512,
        !o.passes(before.table, frames) ==> told <= o.to_scan || told == o.scanned,
        stages.last().turn matches Some(Turn::Finished(result)) && cow_try_ended(
            stages.last(),
            result,
            o,
            Window { backend: b, range: o.range, fault_in: false },
            frames,
            before,
            elsewhere,
        ),
{
    let w = Window { backend: b, range: o.range, fault_in: false };
    lemma_cow_try_stages(stages, stages.len() - 1, o, w, frames, before, elsewhere);
}

/// Where no frame is counted none is shared.
proof fn lemma_none_shared(t: Map<int, PageEntry>, p: int, k: int)
    ensures
        shared_in(t, Map::empty(), p, k) == 0,
    decreases k,
{
    if k > 0 {
        lemma_none_shared(t, p, k - 1);
    }
}

/// An attempt on shared memory in its space.
pub struct SharedTryRun {
    pub machine: SharedTryView,
    pub cache: CacheView,
    pub space: Space,
    pub turn: Option<Turn<bool>>,
}

/// The attempt after a step, in the space that answered.
pub open spec fn shared_try_after(s: CacheStep<SharedTryView, bool>, answered: Space) -> SharedTryRun {
    SharedTryRun {
        machine: s.next,
        cache: s.cache,
        space: answered.all_performed(s.effects),
        turn: Some(s.turn),
    }
}

/// Whether an attempt can go from `a` to `b`: it starts, or its request is
/// answered.
pub open spec fn shared_try_moves(a: SharedTryRun, b: SharedTryRun) -> bool {
    match a.turn {
        None => b == shared_try_after(a.machine.after(a.cache, Reply::Start), a.space),
        Some(Turn::Ask(request)) => {
            exists|reply: Reply, space: Space| #[trigger]
                answered_or_refused(a.space, request, reply, space, false) && a.machine.awaits(reply) && b
                    == shared_try_after(a.machine.after(a.cache, reply), space)
        },
        Some(Turn::Finished(_)) => false,
    }
}

/// Whether an attempt goes through the given stages.
pub open spec fn shared_try_runs(stages: Seq<SharedTryRun>) -> bool {
    &&& stages.len() > 0
    &&& forall|i: int|
        0 <= i < stages.len() - 1 ==> shared_try_moves(#[trigger] stages[i], stages[i + 1])
}

/// Whether an attempt on shared memory ended as it should.
pub open spec fn shared_try_ended(
    r: SharedTryRun,
    result: Result<bool, AxError>,
    o: Attempt,
    w: FileWindow,
    m: Map<u32, PageCache>,
    before: Space,
) -> bool {
    if !o.passes(before.table, Map::empty()) {
        &&& result == Ok::<bool, AxError>(false)
        &&& r.space == before
        &&& r.machine.scan.scanned <= o.to_scan || r.machine.scan.scanned == o.scanned
    } else {
        let some = first_rights(before.table, w.first(), THP_NR_4K_PAGES as int) is Some;
        &&& result is Ok
        &&& result == Ok::<bool, AxError>(some)
        &&& result == Ok::<bool, AxError>(true) ==> w.merged(before, r.space)
        &&& result == Ok::<bool, AxError>(false) ==> r.space.table == before.table && w.aside(before, r.space)
        &&& r.machine.scan.scanned == o.scanned + 512
    }
}

/// What holds at every stage of an attempt on shared memory.
pub open spec fn shared_try_invariant(
    r: SharedTryRun,
    o: Attempt,
    w: FileWindow,
    m: Map<u32, PageCache>,
    before: Space,
) -> bool {
    let c = r.machine;
    let t = before.table;
    let inner = SharedCollapseRun {
        machine: c.collapse,
        cache: r.cache,
        space: r.space,
        turn: None,
    };
    &&& c.range == o.range
    &&& match r.turn {
        None => {
            &&& c.state is Begin
            &&& c.scan == (ScanView { pages: Seq::empty(), ..o.scan(t, Map::empty(), 0) })
            &&& r.space == before
            &&& shared_collapse_invariant(inner, w, m, before, false)
        },
        Some(Turn::Ask(request)) => match c.state {
            TryState::AwaitEntry => {
                let k = c.scan.at as int;
                &&& o.stands(t, Map::empty(), k)
                &&& c.scan == o.at(t, Map::empty(), k)
                &&& request matches Request::Query { va } && number(va) == o.first() + k && va as int
                    % 4096 == 0
                &&& r.space == before
                &&& shared_collapse_invariant(inner, w, m, before, false)
            },
            TryState::AwaitCollapse => {
                &&& o.passes(t, Map::empty())
                &&& c.scan.scanned == o.scanned + 512
                &&& shared_collapse_invariant(
                    SharedCollapseRun { turn: Some(Turn::Ask(request)), ..inner },
                    w,
                    m,
                    before,
                    false,
                )
            },
            _ => false,
        },
        Some(Turn::Finished(result)) => shared_try_ended(r, result, o, w, m, before),
    }
}

/// The attempt is in its collapse.
proof fn lemma_shared_collapses(
    b: SharedTryRun,
    to: SharedCollapseRun,
    o: Attempt,
    w: FileWindow,
    m: Map<u32, PageCache>,
    before: Space,
)
    requires
        w.ok(),
        w.range == o.range,
        b.machine.range == o.range,
        b.machine.state is AwaitCollapse,
        b.machine.scan.scanned == o.scanned + 512,
        o.passes(before.table, Map::empty()),
        shared_collapse_invariant(to, w, m, before, false),
        to == (SharedCollapseRun {
            machine: b.machine.collapse,
            cache: b.cache,
            space: b.space,
            turn: b.turn,
        }),
        b.turn is Some,
    ensures
        shared_try_invariant(b, o, w, m, before),
{
    if b.turn == Some(Turn::Finished(Ok::<bool, AxError>(true))) {
        lemma_in_window(w, w.first());
        assert(w.in_huge(before, b.space.table, w.first()));
    }
}

/// The attempt follows the scan.
proof fn lemma_shared_follows(
    c: SharedTryView,
    cache: CacheView,
    b: SharedTryRun,
    k: int,
    o: Attempt,
    w: FileWindow,
    m: Map<u32, PageCache>,
    before: Space,
)
    requires
        w.ok(),
        w.range == o.range,
        c.range == o.range,
        collapsible(w, m, before),
        o.range.start as int % 4096 == 0,
        0 <= k <= 512,
        missing_in(before.table, o.first(), k) <= o.max_none,
        shared_in(before.table, Map::empty(), o.first(), k) <= o.max_shared,
        o.scanned + k <= o.to_scan || k == 0,
        shared_collapse_invariant(
            SharedCollapseRun { machine: c.collapse, cache, space: before, turn: None },
            w,
            m,
            before,
            false,
        ),
        b == shared_try_after(
            c.following(cache, o.scan(before.table, Map::empty(), k).looking()),
            before,
        ),
    ensures
        shared_try_invariant(b, o, w, m, before),
{
    let t = before.table;
    let (scan, verdict) = o.scan(t, Map::empty(), k).looking();
    lemma_looks(o, t, Map::empty(), k);
    assert(before.all_performed(Seq::empty()) == before);
    if verdict is Passed {
        let from = SharedCollapseRun { machine: c.collapse, cache, space: before, turn: None };
        let to = shared_collapse_resumed(from, Reply::Start, before);
        lemma_shared_collapse_moves(from, to, w, m, before, false);
        lemma_shared_collapses(b, to, o, w, m, before);
    }
}

/// A stage of an attempt is followed by a stage of it.
proof fn lemma_shared_try_moves(
    a: SharedTryRun,
    b: SharedTryRun,
    o: Attempt,
    w: FileWindow,
    m: Map<u32, PageCache>,
    before: Space,
)
    requires
        w.ok(),
        w.range == o.range,
        collapsible(w, m, before),
        shared_try_invariant(a, o, w, m, before),
        shared_try_moves(a, b),
    ensures
        shared_try_invariant(b, o, w, m, before),
{
    let c = a.machine;
    let t = before.table;
    assert(o.range.start as int % 2_097_152 == 0);
    assert(o.range.start as int % 4096 == 0 && o.range.end as int % 4096 == 0);
    match a.turn {
        None => {
            assert(o.range.aligned_to(PageSize::Size4K));
            lemma_shared_follows(c, a.cache, b, 0, o, w, m, before);
        },
        Some(Turn::Ask(request)) => {
            let (reply, answered) = choose|reply: Reply, s: Space| #[trigger]
                answered_or_refused(a.space, request, reply, s, false) && a.machine.awaits(reply) && b
                    == shared_try_after(a.machine.after(a.cache, reply), s);
            if c.state is AwaitEntry {
                let k = c.scan.at as int;
                assert(answered == before);
                lemma_none_shared(t, o.first(), k + 1);
                lemma_notes(o, t, Map::empty(), k, reply, false);
                assert(before.all_performed(Seq::empty()) == before);
                if missing_in(t, o.first(), k + 1) <= o.max_none {
                    lemma_shared_follows(c, a.cache, b, k + 1, o, w, m, before);
                }
            } else {
                let from = SharedCollapseRun {
                    machine: c.collapse,
                    cache: a.cache,
                    space: a.space,
                    turn: Some(Turn::Ask(request)),
                };
                let to = shared_collapse_resumed(from, reply, answered);
                lemma_shared_collapse_moves(from, to, w, m, before, false);
                lemma_shared_collapses(b, to, o, w, m, before);
            }
        },
        Some(Turn::Finished(_)) => {},
    }
}

proof fn lemma_shared_try_stages(
    stages: Seq<SharedTryRun>,
    i: int,
    o: Attempt,
    w: FileWindow,
    m: Map<u32, PageCache>,
    before: Space,
)
    requires
        w.ok(),
        w.range == o.range,
        collapsible(w, m, before),
        shared_try_runs(stages),
        0 <= i < stages.len(),
        shared_try_invariant(stages[0], o, w, m, before),
    ensures
        shared_try_invariant(stages[i], o, w, m, before),
    decreases i,
{
    if i > 0 {
        lemma_shared_try_stages(stages, i - 1, o, w, m, before);
        assert(shared_try_moves(stages[i - 1], stages[i - 1 + 1]));
        lemma_shared_try_moves(stages[i - 1], stages[i], o, w, m, before);
    }
}

/// An attempt collapses a window of shared memory exactly if no more of its pages are
/// missing than may be and there is budget to look at all of them. Then it counts
/// those pages, and succeeds with the huge page in place if a page of the window is
/// there. Else it tells that nothing was collapsed, and changes nothing.
pub proof fn law_shared_attempt_collapses_what_is_worth_it(
    b: SharedBackend,
    o: Attempt,
    w: FileWindow,
    c: SharedTry,
    stages: Seq<SharedTryRun>,
    cache: CacheView,
    before: Space,
    done: SharedTry,
    told: usize,
)
    requires
        w.ok(),
        w.range == o.range,
        w.start_pn * 4096 == w.range.start - b.inner.start,
        call_ensures(
            SharedBackend::try_collapse_page,
            (&b, o.range, o.max_none, o.scanned, o.to_scan),
            c,
        ),
        o.max_shared == 0,
        cache.wf(),
        collapsible(w, page_map(cache.pages), before),
        shared_try_runs(stages),
        stages[0] == (SharedTryRun { machine: c@, cache, space: before, turn: None }),
        done@ == stages.last().machine,
        call_ensures(SharedTry::pages_scanned, (&done,), told),
        stages.last().turn matches Some(Turn::Finished(_)),
    ensures
        o.passes(before.table, Map::empty()) ==> told == o.scanned + 512,
        !o.passes(before.table, Map::empty()) ==> told <= o.to_scan || told == o.scanned,
        stages.last().turn matches Some(Turn::Finished(result)) && shared_try_ended(
            stages.last(),
            result,
            o,
            w,
            page_map(cache.pages),
            before,
        ),
{
    assert((w.range.start - b.inner.start) / 4096 == w.start_pn);
    lemma_shared_try_stages(stages, stages.len() - 1, o, w, page_map(cache.pages), before);
}

/// An attempt on a mapped file in its space.
pub struct FileTryRun {
    pub machine: FileTryView,
    pub cache: CacheView,
    pub space: Space,
    pub turn: Option<Turn<bool>>,
}

/// The attempt after a step, in the space that answered.
pub open spec fn file_try_after(s: CacheStep<FileTryView, bool>, answered: Space) -> FileTryRun {
    FileTryRun {
        machine: s.next,
        cache: s.cache,
        space: answered.all_performed(s.effects),
        turn: Some(s.turn),
    }
}

/// Whether an attempt can go from `a` to `b`: it starts, or its request is
/// answered. No page has to leave the cache,
/// and a huge page that is cached can be mapped.
pub open spec fn file_try_moves(a: FileTryRun, b: FileTryRun) -> bool {
    match a.turn {
        None => b == file_try_after(a.machine.after(a.cache, Reply::Start), a.space),
        Some(Turn::Ask(request)) => {
            &&& !a.cache.full()
            &&& exists|reply: Reply, space: Space| #[trigger]
                answered_by_all(a.space, request, reply, space, false) && a.machine.awaits(a.cache, reply) && (
                a.machine.state is AwaitCollapse && a.machine.collapse.state is AwaitReuse ==> reply
                    is Done) && b
                    == file_try_after(a.machine.after(a.cache, reply), space)
        },
        Some(Turn::Finished(_)) => false,
    }
}

/// Whether an attempt goes through the given stages.
pub open spec fn file_try_runs(stages: Seq<FileTryRun>) -> bool {
    &&& stages.len() > 0
    &&& forall|i: int|
        0 <= i < stages.len() - 1 ==> file_try_moves(#[trigger] stages[i], stages[i + 1])
}

/// Whether an attempt on a mapped file ended as it should.
pub open spec fn file_try_ended(
    r: FileTryRun,
    result: Result<bool, AxError>,
    o: Attempt,
    w: FileWindow,
    m: Map<u32, PageCache>,
    before: Space,
) -> bool {
    if !o.passes(before.table, Map::empty()) {
        &&& result == Ok::<bool, AxError>(false)
        &&& r.space == before
        &&& r.machine.scan.scanned <= o.to_scan || r.machine.scan.scanned == o.scanned
    } else {
        let some = first_rights(before.table, w.first(), THP_NR_4K_PAGES as int) is Some && (
        w.has_huge(m) || w.plain(m));
        &&& result is Ok
        &&& apart(m) ==> result == Ok::<bool, AxError>(some)
        &&& result == Ok::<bool, AxError>(true) ==> w.merged(before, r.space)
        &&& result == Ok::<bool, AxError>(false) ==> w.intact(before, r.space)
        &&& r.machine.scan.scanned == o.scanned + 512
    }
}

/// What holds at every stage of an attempt on a mapped file.
pub open spec fn file_try_invariant(
    r: FileTryRun,
    o: Attempt,
    w: FileWindow,
    m: Map<u32, PageCache>,
    before: Space,
) -> bool {
    let c = r.machine;
    let t = before.table;
    let inner = FileCollapseRun {
        machine: c.collapse,
        cache: r.cache,
        space: r.space,
        turn: None,
    };
    &&& c.range == o.range
    &&& match r.turn {
        None => {
            &&& c.state is Begin
            &&& c.scan == (ScanView { pages: Seq::empty(), ..o.scan(t, Map::empty(), 0) })
            &&& r.space == before
            &&& file_collapse_invariant(inner, w, m, before, false)
        },
        Some(Turn::Ask(request)) => match c.state {
            TryState::AwaitEntry => {
                let k = c.scan.at as int;
                &&& o.stands(t, Map::empty(), k)
                &&& c.scan == o.at(t, Map::empty(), k)
                &&& request matches Request::Query { va } && number(va) == o.first() + k && va as int
                    % 4096 == 0
                &&& r.space == before
                &&& file_collapse_invariant(inner, w, m, before, false)
            },
            TryState::AwaitCollapse => {
                &&& o.passes(t, Map::empty())
                &&& c.scan.scanned == o.scanned + 512
                &&& file_collapse_invariant(
                    FileCollapseRun { turn: Some(Turn::Ask(request)), ..inner },
                    w,
                    m,
                    before,
                    false,
                )
            },
            _ => false,
        },
        Some(Turn::Finished(result)) => file_try_ended(r, result, o, w, m, before),
    }
}

/// The attempt is in its collapse.
proof fn lemma_file_collapses(
    b: FileTryRun,
    to: FileCollapseRun,
    o: Attempt,
    w: FileWindow,
    m: Map<u32, PageCache>,
    before: Space,
)
    requires
        w.ok(),
        w.range == o.range,
        b.machine.range == o.range,
        b.machine.state is AwaitCollapse,
        b.machine.scan.scanned == o.scanned + 512,
        o.passes(before.table, Map::empty()),
        file_collapse_invariant(to, w, m, before, false),
        to == (FileCollapseRun {
            machine: b.machine.collapse,
            cache: b.cache,
            space: b.space,
            turn: b.turn,
        }),
        b.turn is Some,
    ensures
        file_try_invariant(b, o, w, m, before),
{
    reveal(file_collapse_invariant);
    if b.turn == Some(Turn::Finished(Ok::<bool, AxError>(true))) {
        lemma_in_window(w, w.first());
        assert(w.in_huge(before, b.space.table, w.first()));
    }
}

/// The attempt follows the scan.
proof fn lemma_file_follows(
    c: FileTryView,
    cache: CacheView,
    b: FileTryRun,
    k: int,
    o: Attempt,
    w: FileWindow,
    m: Map<u32, PageCache>,
    before: Space,
)
    requires
        w.ok(),
        w.range == o.range,
        c.range == o.range,
        w.shown(before, m),
        pages_ok(m),
        o.range.start as int % 4096 == 0,
        0 <= k <= 512,
        missing_in(before.table, o.first(), k) <= o.max_none,
        shared_in(before.table, Map::empty(), o.first(), k) <= o.max_shared,
        o.scanned + k <= o.to_scan || k == 0,
        file_collapse_invariant(
            FileCollapseRun { machine: c.collapse, cache, space: before, turn: None },
            w,
            m,
            before,
            false,
        ),
        b == file_try_after(
            c.following(cache, o.scan(before.table, Map::empty(), k).looking()),
            before,
        ),
    ensures
        file_try_invariant(b, o, w, m, before),
{
    let t = before.table;
    let (scan, verdict) = o.scan(t, Map::empty(), k).looking();
    lemma_looks(o, t, Map::empty(), k);
    assert(before.all_performed(Seq::empty()) == before);
    if verdict is Passed {
        let from = FileCollapseRun { machine: c.collapse, cache, space: before, turn: None };
        let to = file_collapse_after(c.collapse.after(cache, Reply::Start), before);
        lemma_file_collapse_moves(from, to, w, m, before, false);
        lemma_file_collapses(b, to, o, w, m, before);
    }
}

/// An attempt looks at a page.
proof fn lemma_file_try_looks(
    a: FileTryRun,
    b: FileTryRun,
    request: Request,
    reply: Reply,
    answered: Space,
    o: Attempt,
    w: FileWindow,
    m: Map<u32, PageCache>,
    before: Space,
)
    requires
        w.ok(),
        w.range == o.range,
        w.shown(before, m),
        pages_ok(m),
        file_try_invariant(a, o, w, m, before),
        a.turn == Some(Turn::<bool>::Ask(request)),
        answered_by_all(a.space, request, reply, answered, false),
        a.machine.awaits(a.cache, reply),
        b == file_try_after(a.machine.after(a.cache, reply), answered),
        a.machine.state is AwaitEntry,
    ensures
        file_try_invariant(b, o, w, m, before),
{
    let c = a.machine;
    let t = before.table;
    let k = c.scan.at as int;
    assert(o.range.start as int % 2_097_152 == 0);
    assert(o.range.start as int % 4096 == 0 && o.range.end as int % 4096 == 0);
    assert(answered == before);
    lemma_none_shared(t, o.first(), k + 1);
    lemma_notes(o, t, Map::empty(), k, reply, false);
    assert(before.all_performed(Seq::empty()) == before);
    if missing_in(t, o.first(), k + 1) <= o.max_none {
        lemma_file_follows(c, a.cache, b, k + 1, o, w, m, before);
    }
}

/// An attempt goes on with its collapse.
proof fn lemma_file_try_goes_on(
    a: FileTryRun,
    b: FileTryRun,
    request: Request,
    reply: Reply,
    answered: Space,
    o: Attempt,
    w: FileWindow,
    m: Map<u32, PageCache>,
    before: Space,
)
    requires
        w.ok(),
        w.range == o.range,
        w.shown(before, m),
        pages_ok(m),
        file_try_invariant(a, o, w, m, before),
        a.turn == Some(Turn::<bool>::Ask(request)),
        answered_by_all(a.space, request, reply, answered, false),
        a.machine.awaits(a.cache, reply),
        b == file_try_after(a.machine.after(a.cache, reply), answered),
        a.machine.state is AwaitCollapse,
        a.machine.collapse.state is AwaitReuse ==> reply is Done,
        !a.cache.full(),
    ensures
        file_try_invariant(b, o, w, m, before),
{
    let c = a.machine;
    let from = FileCollapseRun {
        machine: c.collapse,
        cache: a.cache,
        space: a.space,
        turn: Some(Turn::Ask(request)),
    };
    let to = file_collapse_after(c.collapse.after(a.cache, reply), answered);
    assert(file_collapse_moves(from, to, false));
    lemma_file_collapse_moves(from, to, w, m, before, false);
    lemma_file_collapses(b, to, o, w, m, before);
}

/// A stage of an attempt is followed by a stage of it.
proof fn lemma_file_try_moves(
    a: FileTryRun,
    b: FileTryRun,
    o: Attempt,
    w: FileWindow,
    m: Map<u32, PageCache>,
    before: Space,
)
    requires
        w.ok(),
        w.range == o.range,
        w.shown(before, m),
        pages_ok(m),
        file_try_invariant(a, o, w, m, before),
        file_try_moves(a, b),
    ensures
        file_try_invariant(b, o, w, m, before),
{
    let c = a.machine;
    let t = before.table;
    assert(o.range.start as int % 2_097_152 == 0);
    assert(o.range.start as int % 4096 == 0 && o.range.end as int % 4096 == 0);
    match a.turn {
        None => {
            assert(o.range.aligned_to(PageSize::Size4K));
            lemma_file_follows(c, a.cache, b, 0, o, w, m, before);
        },
        Some(Turn::Ask(request)) => {
            let (reply, answered) = choose|reply: Reply, s: Space| #[trigger]
                answered_by_all(a.space, request, reply, s, false) && a.machine.awaits(a.cache, reply) && (
                a.machine.state is AwaitCollapse && a.machine.collapse.state is AwaitReuse ==> reply
                    is Done) && b
                    == file_try_after(a.machine.after(a.cache, reply), s);
            if c.state is AwaitEntry {
                lemma_file_try_looks(a, b, request, reply, answered, o, w, m, before);
            } else {
                lemma_file_try_goes_on(a, b, request, reply, answered, o, w, m, before);
            }
        },
        Some(Turn::Finished(_)) => {},
    }
}

proof fn lemma_file_try_stages(
    stages: Seq<FileTryRun>,
    i: int,
    o: Attempt,
    w: FileWindow,
    m: Map<u32, PageCache>,
    before: Space,
)
    requires
        w.ok(),
        w.range == o.range,
        w.shown(before, m),
        pages_ok(m),
        file_try_runs(stages),
        0 <= i < stages.len(),
        file_try_invariant(stages[0], o, w, m, before),
    ensures
        file_try_invariant(stages[i], o, w, m, before),
    decreases i,
{
    if i > 0 {
        lemma_file_try_stages(stages, i - 1, o, w, m, before);
        assert(file_try_moves(stages[i - 1], stages[i - 1 + 1]));
        lemma_file_try_moves(stages[i - 1], stages[i], o, w, m, before);
    }
}

/// An attempt collapses a window of a mapped file exactly if no more of its pages are
/// missing than may be and there is budget to look at all of them. Then it counts
/// those pages, and succeeds with the huge page in place if a page of the window is
/// there and no huge page is cached across an
/// end of the window. Else it tells that nothing was collapsed, and changes nothing.
pub proof fn law_file_attempt_collapses_what_is_worth_it(
    b: FileBackend,
    o: Attempt,
    w: FileWindow,
    c: FileTry,
    stages: Seq<FileTryRun>,
    cache: CacheView,
    before: Space,
    done: FileTry,
    told: usize,
)
    requires
        w.ok(),
        w.range == o.range,
        w.start_pn * 4096 == b.inner.offset_page * 4096 + (w.range.start - b.inner.start),
        call_ensures(
            FileBackend::try_collapse_page,
            (&b, o.range, o.max_none, o.scanned, o.to_scan),
            c,
        ),
        o.max_shared == 0,
        cache.wf(),
        w.shown(before, page_map(cache.pages)),
        file_try_runs(stages),
        stages[0] == (FileTryRun { machine: c@, cache, space: before, turn: None }),
        done@ == stages.last().machine,
        call_ensures(FileTry::pages_scanned, (&done,), told),
        stages.last().turn matches Some(Turn::Finished(_)),
    ensures
        o.passes(before.table, Map::empty()) ==> told == o.scanned + 512,
        !o.passes(before.table, Map::empty()) ==> told <= o.to_scan || told == o.scanned,
        stages.last().turn matches Some(Turn::Finished(result)) && file_try_ended(
            stages.last(),
            result,
            o,
            w,
            page_map(cache.pages),
            before,
        ),
{
    reveal(file_collapse_invariant);
    assert((w.range.start - b.inner.start) / 4096 == w.start_pn - b.inner.offset_page);
    lemma_file_try_stages(stages, stages.len() - 1, o, w, page_map(cache.pages), before);
}

} // verus!
