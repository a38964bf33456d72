//! Collapsing a window of shared memory into a huge page keeps what its addresses
//! read.

use vstd::prelude::*;
use crate::addr::{
    page_starts, PageSize, VirtAddrRange, PAGE_SIZE_2M, PAGE_SIZE_4K, THP_NR_4K_PAGES, THP_PAGE_BYTES,
};
use crate::effect::{Reply, Request, Turn};
use crate::error::{AxError, PagingError};
use crate::flags::MappingFlags;
use crate::fs::cache::CacheView;
use crate::fs::merge::Merge;
use crate::fs::merge_law::{copied, in_window, law_merge_begins_with_notices, lemma_merge_copies};
use crate::fs::page::PageCache;
use crate::fs::recency::page_map;
use crate::fs::world::{area, owned};
use crate::mm::mapped_count_law::kept;
use crate::mm::shared::SharedBackend;
use crate::mm::shared_collapse::{SharedCollapse, SharedCollapseState, SharedCollapseView};
use crate::mm::space::{
    first_rights, lemma_around, lemma_block_at, number, placed, refused, same_block, within,
    PageEntry, Space,
};

verus! {

/// A window of a mapped file: its addresses, and the number of its first page in
/// the file.
pub struct FileWindow {
    pub range: VirtAddrRange,
    pub start_pn: u32,
}

impl FileWindow {
    /// Whether the window is that of a huge page.
    pub open spec fn ok(self) -> bool {
        &&& self.range.start as int % PAGE_SIZE_2M as int == 0
        &&& self.range.end - self.range.start == THP_PAGE_BYTES
        &&& self.start_pn + THP_NR_4K_PAGES <= u32::MAX
    }

    /// The number of the first small page.
    pub open spec fn first(self) -> int {
        number(self.range.start)
    }

    /// The page of the file behind a small page.
    pub open spec fn pn(self, p: int) -> u32 {
        (self.start_pn + (p - self.first())) as u32
    }

    /// Whether the cached pages of the window are small.
    pub open spec fn small(self, m: Map<u32, PageCache>) -> bool {
        forall|pn: u32| #[trigger]
            m.dom().contains(pn) && in_window(self.start_pn, pn) ==> m[pn].size == PAGE_SIZE_4K
    }

    /// Whether every mapped page of the window is the cached small page for it.
    pub open spec fn shows_small(self, t: Map<int, PageEntry>, m: Map<u32, PageCache>) -> bool {
        forall|p: int| #[trigger]
            t.dom().contains(p) && within(self.range, p) ==> {
                &&& m.dom().contains(self.pn(p))
                &&& t[p].paddr == m[self.pn(p)].paddr
            }
    }

    /// Whether a small page reads the bytes that it read before.
    pub open spec fn reads_alike(self, before: Space, after: Space, p: int) -> bool {
        &&& after.table.dom().contains(p)
        &&& forall|i: int|
            0 <= i < PAGE_SIZE_4K ==> #[trigger] after.mem[after.table[p].paddr + i]
                == before.mem[before.table[p].paddr + i]
    }

    /// Whether nothing outside of the window is different: neither a page of the
    /// page table, nor memory that belonged to anybody.
    pub open spec fn aside(self, before: Space, after: Space) -> bool {
        &&& forall|p: int|
            !within(self.range, p) ==> #[trigger] kept(after.table, before.table, p)
        &&& forall|a: int| !before.free.contains(a) ==> #[trigger] after.mem[a] == before.mem[a]
    }

    /// Whether a small page is its part of a huge page, which has the rights of the
    /// first page that was mapped in the window.
    pub open spec fn in_huge(self, before: Space, t: Map<int, PageEntry>, p: int) -> bool {
        &&& t.dom().contains(p)
        &&& t[p].size is Size2M
        &&& t[p].paddr == t[self.first()].paddr + (p - self.first()) * PAGE_SIZE_4K
        &&& first_rights(before.table, self.first(), THP_NR_4K_PAGES as int) == Some(t[p].flags)
    }

    /// Whether the window is one huge page, with the rights of the first page that
    /// was mapped in it, and every page that was mapped reads what it read.
    pub open spec fn merged(self, before: Space, after: Space) -> bool {
        &&& forall|p: int| within(self.range, p) ==> #[trigger] self.in_huge(before, after.table, p)
        &&& forall|p: int| #[trigger]
            before.table.dom().contains(p) && within(self.range, p) ==> self.reads_alike(
                before,
                after,
                p,
            )
        &&& self.aside(before, after)
    }

    /// Whether a space holds a copy of the cached pages of the window in memory
    /// that belonged to nobody, and is else as it was.
    pub open spec fn gathered(
        self,
        before: Space,
        s: Space,
        m: Map<u32, PageCache>,
        paddr: usize,
    ) -> bool {
        &&& s.table == before.table
        &&& paddr + PAGE_SIZE_2M <= usize::MAX
        &&& area(paddr as int, PAGE_SIZE_2M as int).subset_of(before.free)
        &&& copied(s.mem, before.mem, m, self.start_pn, paddr as int, THP_NR_4K_PAGES as int)
    }
}

/// The small pages of a window are those of the huge page.
pub proof fn lemma_in_window(w: FileWindow, p: int)
    requires
        w.ok(),
    ensures
        within(w.range, p) == same_block(w.first(), p, PageSize::Size2M),
        within(w.range, p) == (w.first() <= p < w.first() + 512),
        w.first() * PAGE_SIZE_4K == w.range.start,
{
    lemma_block_at(w.range.start, PageSize::Size2M, p);
}

/// The page with an index in a window.
pub proof fn lemma_window_page(w: FileWindow, i: int)
    requires
        w.ok(),
        0 <= i < 512,
    ensures
        w.range.aligned_to(PageSize::Size4K),
        ({
            let pages = page_starts(
                w.range.start as int,
                w.range.end as int,
                PAGE_SIZE_4K as int,
            );
            &&& pages.len() == 512
            &&& pages[i] == w.range.start + i * PAGE_SIZE_4K
            &&& number(pages[i]) == w.first() + i
            &&& pages[i] as int % PAGE_SIZE_4K as int == 0
        }),
{
    lemma_in_window(w, w.first() + i);
    assert(w.range.start as int % 2_097_152 == 0);
    assert(w.range.start as int % 4096 == 0);
    assert(w.range.end as int % 4096 == 0);
    let va = w.range.start + i * 4096;
    assert(va % 4096 == 0 && va / 4096 == w.first() + i);
}

/// The merge gathers the cached pages of the window.
pub proof fn lemma_gathered(
    w: FileWindow,
    t: Merge,
    cache: CacheView,
    before: Space,
    paddr: usize,
    answered: Space,
)
    requires
        w.ok(),
        t.state is AwaitPage,
        t.start_pn == w.start_pn,
        cache.wf(),
        forall|p: u32| #[trigger]
            page_map(cache.pages).dom().contains(p) ==> owned(
                before.around(),
                page_map(cache.pages)[p],
            ),
        w.small(page_map(cache.pages)),
        before.answers(Request::AllocPage { bytes: PAGE_SIZE_2M }, Reply::Addr(paddr), answered),
    ensures
        ({
            let s = t.after(cache, Reply::Addr(paddr));
            &&& s.turn == Turn::Finished(Ok::<usize, crate::error::AxError>(paddr))
            &&& w.gathered(
                before,
                answered.all_performed(s.effects),
                page_map(cache.pages),
                paddr,
            )
        }),
{
    let s = t.after(cache, Reply::Addr(paddr));
    lemma_merge_copies(t, cache, before.around(), paddr, answered.around());
    lemma_around(answered, s.effects);
}

/// The huge page is mapped.
pub proof fn lemma_merged(
    w: FileWindow,
    before: Space,
    s: Space,
    m: Map<u32, PageCache>,
    paddr: usize,
    flags: MappingFlags,
)
    requires
        w.ok(),
        w.gathered(before, s, m, paddr),
        w.shows_small(before.table, m),
        first_rights(before.table, w.first(), THP_NR_4K_PAGES as int) == Some(flags),
    ensures
        w.merged(
            before,
            Space {
                table: placed(s.table, w.first(), paddr as int, PageSize::Size2M, flags),
                ..s
            },
        ),
{
    let t = placed(s.table, w.first(), paddr as int, PageSize::Size2M, flags);
    let after = Space { table: t, ..s };
    assert forall|p: int| within(w.range, p) implies #[trigger] w.in_huge(before, t, p) by {
        lemma_in_window(w, p);
        lemma_in_window(w, w.first());
    }
    assert forall|p: int| #[trigger] before.table.dom().contains(p) && within(w.range, p) implies w.reads_alike(
        before,
        after,
        p,
    ) by {
        lemma_in_window(w, p);
        let pn = w.pn(p);
        assert(m.dom().contains(pn));
        assert forall|i: int| 0 <= i < PAGE_SIZE_4K implies #[trigger] after.mem[after.table[p].paddr + i]
            == before.mem[before.table[p].paddr + i] by {
            let x = (p - w.first()) * PAGE_SIZE_4K + i;
            assert(after.table[p].paddr + i == paddr + x);
            assert(s.mem[paddr + x] == before.mem[m[pn].paddr + (x - (pn - w.start_pn) * PAGE_SIZE_4K)]);
        }
    }
    assert forall|p: int| !within(w.range, p) implies #[trigger] kept(t, before.table, p) by {
        lemma_in_window(w, p);
    }
    assert forall|a: int| !before.free.contains(a) implies #[trigger] after.mem[a] == before.mem[a] by {
        if paddr <= a < paddr + PAGE_SIZE_2M {
            assert(area(paddr as int, PAGE_SIZE_2M as int).contains(a));
        }
    }
}

/// A collapse of shared memory in its space.
pub struct SharedCollapseRun {
    pub machine: SharedCollapseView,
    pub cache: CacheView,
    pub space: Space,
    pub turn: Option<Turn<bool>>,
}

/// The collapse after a reply from the space `space`.
pub open spec fn shared_collapse_resumed(
    a: SharedCollapseRun,
    reply: Reply,
    space: Space,
) -> SharedCollapseRun {
    let s = a.machine.after(a.cache, reply);
    SharedCollapseRun {
        machine: s.next,
        cache: s.cache,
        space: space.all_performed(s.effects),
        turn: Some(s.turn),
    }
}

/// Whether a request is answered, or, if there is trouble, refused, which leaves the
/// space as it is.
pub open spec fn answered_or_refused(
    a: Space,
    request: Request,
    reply: Reply,
    space: Space,
    trouble: bool,
) -> bool {
    a.answers(request, reply, space) || (trouble && (refused(reply) || reply is Failed) && space == a)
}

/// Whether a collapse can go from `a` to `b`: it starts, or its request is
/// answered or refused.
pub open spec fn shared_collapse_moves(a: SharedCollapseRun, b: SharedCollapseRun, trouble: bool) -> bool {
    match a.turn {
        None => b == shared_collapse_resumed(a, Reply::Start, a.space),
        Some(Turn::Ask(request)) => exists|reply: Reply, space: Space| #[trigger]
            answered_or_refused(a.space, request, reply, space, trouble) && a.machine.awaits(reply)
                && b == shared_collapse_resumed(a, reply, space),
        Some(Turn::Finished(_)) => false,
    }
}

/// Whether a collapse goes through the given stages.
pub open spec fn shared_collapse_runs(stages: Seq<SharedCollapseRun>, trouble: bool) -> bool {
    &&& stages.len() > 0
    &&& forall|i: int|
        0 <= i < stages.len() - 1 ==> shared_collapse_moves(
            #[trigger] stages[i],
            stages[i + 1],
            trouble,
        )
}

/// Whether a window can be collapsed without loss: its cached pages are small, the
/// mapped pages are those, and no cached page lies in memory that belongs to
/// nobody.
pub open spec fn collapsible(w: FileWindow, m: Map<u32, PageCache>, s: Space) -> bool {
    &&& w.small(m)
    &&& w.shows_small(s.table, m)
    &&& forall|pn: u32| #[trigger] m.dom().contains(pn) ==> owned(s.around(), m[pn])
}

/// What holds at every stage of a collapse of shared memory.
pub open spec fn shared_collapse_invariant(
    r: SharedCollapseRun,
    w: FileWindow,
    m: Map<u32, PageCache>,
    before: Space,
    trouble: bool,
) -> bool {
    let c = r.machine;
    let t = before.table;
    &&& c.range == w.range
    &&& c.merge.start_pn == w.start_pn
    &&& match r.turn {
        None => {
            &&& c.state is Begin
            &&& c.flags is None
            &&& c.merge.state is Begin
            &&& r.cache.wf()
            &&& page_map(r.cache.pages) == m
            &&& r.space == before
        },
        Some(Turn::Ask(request)) => match c.state {
            SharedCollapseState::AwaitEntry => {
                &&& c.pages == page_starts(
                    w.range.start as int,
                    w.range.end as int,
                    PAGE_SIZE_4K as int,
                )
                &&& c.at < 512
                &&& request == (Request::Query { va: c.pages[c.at as int] })
                &&& c.flags == first_rights(t, w.first(), c.at as int)
                &&& c.merge.state is Begin
                &&& r.cache.wf()
                &&& page_map(r.cache.pages) == m
                &&& r.space == before
            },
            SharedCollapseState::Merging => {
                &&& request == (Request::AllocPage { bytes: PAGE_SIZE_2M })
                &&& c.flags is Some
                &&& c.flags == first_rights(t, w.first(), 512)
                &&& c.merge.state is AwaitPage
                &&& r.cache.wf()
                &&& page_map(r.cache.pages) == m
                &&& r.space == before
            },
            SharedCollapseState::AwaitRemap => {
                &&& c.flags is Some
                &&& c.flags == first_rights(t, w.first(), 512)
                &&& request matches Request::RemapHuge { va, paddr, flags } && va == w.range.start
                    && Some(flags) == c.flags && w.gathered(before, r.space, m, paddr)
            },
            _ => false,
        },
        Some(Turn::Finished(Ok(true))) => w.merged(before, r.space),
        Some(Turn::Finished(result)) => {
            &&& r.space.table == t
            &&& w.aside(before, r.space)
            &&& result is Err ==> trouble
            &&& result is Ok ==> first_rights(t, w.first(), 512) is None
        },
    }
}

/// The collapse turns to the next page of the window, or to the merge.
proof fn lemma_shared_looks(
    c: SharedCollapseView,
    b: SharedCollapseRun,
    w: FileWindow,
    cache: CacheView,
    before: Space,
    trouble: bool,
)
    requires
        w.ok(),
        c.range == w.range,
        c.merge.start_pn == w.start_pn,
        c.merge.state is Begin,
        cache.wf(),
        c.pages == page_starts(w.range.start as int, w.range.end as int, PAGE_SIZE_4K as int),
        c.at <= 512,
        c.flags == first_rights(before.table, w.first(), c.at as int),
        ({
            let s = c.looking(cache);
            b == SharedCollapseRun {
                machine: s.next,
                cache: s.cache,
                space: before.all_performed(s.effects),
                turn: Some(s.turn),
            }
        }),
    ensures
        shared_collapse_invariant(b, w, page_map(cache.pages), before, trouble),
{
    lemma_window_page(w, 0);
    assert(before.all_performed(Seq::empty()) == before);
    if c.at < c.pages.len() {
    } else if c.flags is None {
    } else {
        law_merge_begins_with_notices(c.merge, cache, before.around());
        lemma_unchanged(c.merge, cache, before);
    }
}

/// A merge that begins leaves the space as it is.
pub proof fn lemma_unchanged(t: Merge, cache: CacheView, s: Space)
    requires
        t.state is Begin,
        cache.wf(),
    ensures
        s.all_performed(t.after(cache, Reply::Start).effects) == s,
{
    let effects = t.after(cache, Reply::Start).effects;
    law_merge_begins_with_notices(t, cache, s.around());
    lemma_around(s, effects);
    let after = s.all_performed(effects);
    assert(after.around() == s.around());
}

/// A stage of a collapse of shared memory is followed by a stage of it.
pub proof fn lemma_shared_collapse_moves(
    a: SharedCollapseRun,
    b: SharedCollapseRun,
    w: FileWindow,
    m: Map<u32, PageCache>,
    before: Space,
    trouble: bool,
)
    requires
        w.ok(),
        collapsible(w, m, before),
        shared_collapse_invariant(a, w, m, before, trouble),
        shared_collapse_moves(a, b, trouble),
    ensures
        shared_collapse_invariant(b, w, m, before, trouble),
{
    reveal(SharedCollapseView::after);
    let c = a.machine;
    let t = before.table;
    assert(before.all_performed(Seq::empty()) == before);
    assert(w.aside(before, before));
    match a.turn {
        None => {
            lemma_window_page(w, 0);
            let next = SharedCollapseView {
                pages: page_starts(
                    w.range.start as int,
                    w.range.end as int,
                    PAGE_SIZE_4K as int,
                ),
                at: 0,
                ..c
            };
            lemma_shared_looks(next, b, w, a.cache, before, trouble);
        },
        Some(Turn::Ask(request)) => {
            let (reply, answered) = choose|reply: Reply, s: Space| #[trigger]
                answered_or_refused(a.space, request, reply, s, trouble) && a.machine.awaits(reply) && b
                    == shared_collapse_resumed(a, reply, s);
            match c.state {
                SharedCollapseState::AwaitEntry => {
                    lemma_window_page(w, c.at as int);
                    let p = w.first() + c.at;
                    if let Reply::Entry { paddr: _, flags, size: _ } = reply {
                        let next = SharedCollapseView {
                            flags: if c.flags is None {
                                Some(flags)
                            } else {
                                c.flags
                            },
                            at: c.at + 1,
                            ..c
                        };
                        assert(t.dom().contains(p) && flags == t[p].flags);
                        lemma_shared_looks(next, b, w, a.cache, before, trouble);
                    } else if reply == Reply::Fault(PagingError::NotMapped) {
                        let next = SharedCollapseView { at: c.at + 1, ..c };
                        assert(!t.dom().contains(p));
                        lemma_shared_looks(next, b, w, a.cache, before, trouble);
                    }
                },
                SharedCollapseState::Merging => {
                    if let Reply::Addr(paddr) = reply {
                        lemma_gathered(w, c.merge, a.cache, before, paddr, answered);
                    }
                },
                SharedCollapseState::AwaitRemap => {
                    let paddr = request->RemapHuge_paddr;
                    assert(a.space.all_performed(Seq::empty()) == a.space);
                    assert(answered.all_performed(Seq::empty()) == answered);
                    if reply is Done {
                        lemma_merged(w, before, a.space, m, paddr, c.flags.unwrap());
                    } else {
                        lemma_gathered_aside(w, before, a.space, m, paddr);
                    }
                },
                _ => {},
            }
        },
        Some(Turn::Finished(_)) => {},
    }
}

/// The huge page lies in memory that belonged to nobody.
pub proof fn lemma_gathered_aside(
    w: FileWindow,
    before: Space,
    s: Space,
    m: Map<u32, PageCache>,
    paddr: usize,
)
    requires
        w.gathered(before, s, m, paddr),
    ensures
        w.aside(before, s),
{
    assert forall|a: int| !before.free.contains(a) implies #[trigger] s.mem[a] == before.mem[a] by {
        if paddr <= a < paddr + PAGE_SIZE_2M {
            assert(area(paddr as int, PAGE_SIZE_2M as int).contains(a));
        }
    }
}

proof fn lemma_shared_collapse_stages(
    stages: Seq<SharedCollapseRun>,
    i: int,
    w: FileWindow,
    m: Map<u32, PageCache>,
    before: Space,
    trouble: bool,
)
    requires
        w.ok(),
        collapsible(w, m, before),
        shared_collapse_runs(stages, trouble),
        0 <= i < stages.len(),
        shared_collapse_invariant(stages[0], w, m, before, trouble),
    ensures
        shared_collapse_invariant(stages[i], w, m, before, trouble),
    decreases i,
{
    if i > 0 {
        lemma_shared_collapse_stages(stages, i - 1, w, m, before, trouble);
        assert(shared_collapse_moves(stages[i - 1], stages[i - 1 + 1], trouble));
        lemma_shared_collapse_moves(stages[i - 1], stages[i], w, m, before, trouble);
    }
}

/// A collapse of shared memory maps the window to one huge page in which every
/// address that was mapped reads the byte that it read before, with the rights of
/// the first page that was mapped. All other pages, and memory that belonged to
/// anybody, are as they were. It does so unless no page of the window is there or a
/// request is refused; then the page table is as it was.
pub proof fn law_shared_collapse_keeps_the_contents(
    b: SharedBackend,
    c: SharedCollapse,
    stages: Seq<SharedCollapseRun>,
    w: FileWindow,
    cache: CacheView,
    before: Space,
    trouble: bool,
)
    requires
        w.ok(),
        w.start_pn * 4096 == w.range.start - b.inner.start,
        call_ensures(SharedBackend::collapse_page, (&b, w.range), c),
        cache.wf(),
        collapsible(w, page_map(cache.pages), before),
        shared_collapse_runs(stages, trouble),
        stages[0] == (SharedCollapseRun { machine: c@, cache, space: before, turn: None }),
    ensures
        stages.last().turn matches Some(Turn::Finished(result)) ==> {
            let some = first_rights(before.table, w.first(), THP_NR_4K_PAGES as int) is Some;
            let after = stages.last().space;
            &&& result is Err ==> trouble
            &&& result is Ok ==> result == Ok::<bool, AxError>(some)
            &&& result == Ok::<bool, AxError>(true) ==> w.merged(before, after)
            &&& result != Ok::<bool, AxError>(true) ==> after.table == before.table && w.aside(
                before,
                after,
            )
        },
{
    assert((w.range.start - b.inner.start) / 4096 == w.start_pn);
    lemma_shared_collapse_stages(
        stages,
        stages.len() - 1,
        w,
        page_map(cache.pages),
        before,
        trouble,
    );
    if stages.last().turn == Some(Turn::Finished(Ok::<bool, AxError>(true))) {
        assert(w.in_huge(before, stages.last().space.table, w.first())) by {
            lemma_in_window(w, w.first());
        }
    }
}

} // verus!
