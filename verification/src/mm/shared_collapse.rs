//! Turning shared memory into huge pages and back.

use vstd::prelude::*;
use vstd::pervasive::unreached;
use crate::addr::{
    huge_base, page_starts, pages_in, PageSize, VirtAddrRange, PAGE_SIZE_2M, PAGE_SIZE_4K,
    THP_PAGE_BYTES,
};
use crate::effect::{Effect, Reply, Request, Turn};
use crate::error::{AxError, PagingError};
use crate::flags::MappingFlags;
use crate::fs::cache::{CacheView, CachedFileShared};
use crate::fs::chunks::{chunk_from, chunk_order};
use crate::fs::merge::{Merge, MergeState, MergeStep};
use crate::fs::recency::page_map;
use crate::fs::split::{Split, SplitStep};
use crate::mm::shared::{in_mapping, page_number, CacheStep, SharedBackend};

verus! {

/// Where a collapse stands.
#[derive(Debug, Clone, Copy, PartialEq, Eq, Structural)]
pub enum SharedCollapseState {
    Begin,
    AwaitEntry,
    Merging,
    AwaitRemap,
    Over,
}

/// The collapse of a window of shared memory into one huge page: the cached
/// pages are merged, and the huge page is mapped with the rights of the first
/// page that is there. Without such a page nothing is done. The result tells
/// whether the huge page was mapped.
#[derive(Debug)]
pub struct SharedCollapse {
    pub backend: SharedBackend,
    pub range: VirtAddrRange,
    pub state: SharedCollapseState,
    pub pages: Vec<usize>,
    pub at: usize,
    pub flags: Option<MappingFlags>,
    pub merge: Merge,
}

/// What a collapse amounts to.
pub struct SharedCollapseView {
    pub backend: SharedBackend,
    pub range: VirtAddrRange,
    pub state: SharedCollapseState,
    pub pages: Seq<usize>,
    pub at: nat,
    pub flags: Option<MappingFlags>,
    pub merge: Merge,
}

impl View for SharedCollapse {
    type V = SharedCollapseView;

    open spec fn view(&self) -> SharedCollapseView {
        SharedCollapseView {
            backend: self.backend,
            range: self.range,
            state: self.state,
            pages: self.pages@,
            at: self.at as nat,
            flags: self.flags,
            merge: self.merge,
        }
    }
}

impl SharedCollapseView {
    pub open spec fn wf(self) -> bool {
        &&& in_mapping(self.backend.inner.start, self.range)
        &&& self.merge.wf()
        &&& match self.state {
            SharedCollapseState::Begin => self.flags is None && self.merge.state is Begin,
            SharedCollapseState::AwaitEntry => self.at < self.pages.len() && self.merge.state is Begin,
            SharedCollapseState::Merging => self.flags is Some,
            SharedCollapseState::AwaitRemap => true,
            SharedCollapseState::Over => true,
        }
    }

    /// Whether the reply can be one to the last request.
    pub open spec fn awaits(self, reply: Reply) -> bool {
        match self.state {
            SharedCollapseState::Begin => reply is Start,
            SharedCollapseState::AwaitEntry => reply is Entry || reply is Fault,
            SharedCollapseState::Merging => self.merge.awaits(reply),
            SharedCollapseState::AwaitRemap => reply is Done || reply is Fault,
            SharedCollapseState::Over => false,
        }
    }

    pub open spec fn ending(
        self,
        cache: CacheView,
        effects: Seq<Effect>,
        result: Result<bool, AxError>,
    ) -> CacheStep<SharedCollapseView, bool> {
        CacheStep {
            next: SharedCollapseView { state: SharedCollapseState::Over, ..self },
            cache,
            effects,
            turn: Turn::Finished(result),
        }
    }

    /// The collapse turns to the page where it stands.
    pub open spec fn looking(self, cache: CacheView) -> CacheStep<SharedCollapseView, bool> {
        if self.at < self.pages.len() {
            CacheStep {
                next: SharedCollapseView { state: SharedCollapseState::AwaitEntry, ..self },
                cache,
                effects: Seq::empty(),
                turn: Turn::Ask(Request::Query { va: self.pages[self.at as int] }),
            }
        } else if self.flags is None {
            self.ending(cache, Seq::empty(), Ok(false))
        } else {
            self.merging(self.merge.after(cache, Reply::Start))
        }
    }

    /// The collapse after a step of the merge.
    pub open spec fn merging(self, s: MergeStep) -> CacheStep<SharedCollapseView, bool> {
        let t = SharedCollapseView { merge: s.next, state: SharedCollapseState::Merging, ..self };
        match s.turn {
            Turn::Ask(request) => CacheStep {
                next: t,
                cache: s.cache,
                effects: s.effects,
                turn: Turn::Ask(request),
            },
            Turn::Finished(Ok(paddr)) => CacheStep {
                next: SharedCollapseView { state: SharedCollapseState::AwaitRemap, ..t },
                cache: s.cache,
                effects: s.effects,
                turn: Turn::Ask(
                    Request::RemapHuge {
                        va: self.range.start,
                        paddr,
                        flags: self.flags.unwrap(),
                    },
                ),
            },
            Turn::Finished(Err(e)) => t.ending(s.cache, s.effects, Err(e)),
        }
    }

    /// What the step does.
    #[verifier::opaque]
    pub open spec fn after(self, cache: CacheView, reply: Reply) -> CacheStep<
        SharedCollapseView,
        bool,
    > {
        match (self.state, reply) {
            (SharedCollapseState::Begin, _) => if self.range.aligned_to(PageSize::Size4K) {
                SharedCollapseView {
                    pages: page_starts(
                        self.range.start as int,
                        self.range.end as int,
                        PAGE_SIZE_4K as int,
                    ),
                    at: 0,
                    ..self
                }.looking(cache)
            } else {
                self.ending(cache, Seq::empty(), Err(AxError::InvalidInput))
            },
            (SharedCollapseState::AwaitEntry, Reply::Entry { paddr: _, flags, size: _ }) => SharedCollapseView {
                flags: if self.flags is None {
                    Some(flags)
                } else {
                    self.flags
                },
                at: self.at + 1,
                ..self
            }.looking(cache),
            (SharedCollapseState::AwaitEntry, Reply::Fault(PagingError::NotMapped)) => SharedCollapseView {
                at: self.at + 1,
                ..self
            }.looking(cache),
            (SharedCollapseState::AwaitEntry, _) => self.ending(
                cache,
                Seq::empty(),
                Err(AxError::BadAddress),
            ),
            (SharedCollapseState::Merging, _) => self.merging(self.merge.after(cache, reply)),
            (SharedCollapseState::AwaitRemap, Reply::Done) => self.ending(
                cache,
                Seq::empty(),
                Ok(true),
            ),
            (SharedCollapseState::AwaitRemap, Reply::Fault(e)) => self.ending(
                cache,
                Seq::empty(),
                Err(e.into_error()),
            ),
            _ => arbitrary(),
        }
    }
}

impl SharedCollapse {
    /// Turns to the page where it stands.
    fn look(&mut self, shared: &mut CachedFileShared, effects: &mut Vec<Effect>) -> (r: Turn<bool>)
        requires
            in_mapping(old(self).backend.inner.start, old(self).range),
            old(self).merge.wf(),
            old(self).merge.state is Begin,
            old(shared)@.wf(),
        ensures
            final(self)@.wf(),
            final(shared)@.wf(),
            ({
                let s = old(self)@.looking(old(shared)@);
                &&& final(self)@ == s.next
                &&& final(shared)@ == s.cache
                &&& final(effects)@ == old(effects)@ + s.effects
                &&& r == s.turn
            }),
    {
        if self.at < self.pages.len() {
            self.state = SharedCollapseState::AwaitEntry;
            Turn::Ask(Request::Query { va: self.pages[self.at] })
        } else if self.flags.is_none() {
            self.state = SharedCollapseState::Over;
            Turn::Finished(Ok(false))
        } else {
            self.step_merge(shared, Reply::Start, effects)
        }
    }

    /// Takes note of a step of the merge.
    fn step_merge(&mut self, shared: &mut CachedFileShared, reply: Reply, effects: &mut Vec<Effect>) -> (r:
        Turn<bool>)
        requires
            in_mapping(old(self).backend.inner.start, old(self).range),
            old(self).flags is Some,
            old(self).merge.wf(),
            old(self).merge.awaits(reply),
            old(shared)@.wf(),
        ensures
            final(self)@.wf(),
            final(shared)@.wf(),
            ({
                let s = old(self)@.merging(old(self).merge.after(old(shared)@, reply));
                &&& final(self)@ == s.next
                &&& final(shared)@ == s.cache
                &&& final(effects)@ == old(effects)@ + s.effects
                &&& r == s.turn
            }),
    {
        self.state = SharedCollapseState::Merging;
        match (self.merge.step(shared, reply, effects), self.flags) {
            (Turn::Ask(request), _) => Turn::Ask(request),
            (Turn::Finished(Ok(paddr)), Some(flags)) => {
                self.state = SharedCollapseState::AwaitRemap;
                Turn::Ask(Request::RemapHuge { va: self.range.start, paddr, flags })
            },
            (Turn::Finished(Err(e)), _) => {
                self.state = SharedCollapseState::Over;
                Turn::Finished(Err(e))
            },
            _ => unreached(),
        }
    }

    /// Goes on with the collapse.
    pub fn step(&mut self, shared: &mut CachedFileShared, reply: Reply, effects: &mut Vec<Effect>) -> (r:
        Turn<bool>)
        requires
            old(self)@.wf(),
            old(self)@.awaits(reply),
            old(shared)@.wf(),
        ensures
            final(self)@.wf(),
            final(shared)@.wf(),
            ({
                let s = old(self)@.after(old(shared)@, reply);
                &&& final(self)@ == s.next
                &&& final(shared)@ == s.cache
                &&& final(effects)@ == old(effects)@ + s.effects
                &&& r == s.turn
            }),
    {
        proof {
            reveal(SharedCollapseView::after);
        }
        proof {
            assert(self.pages.len() == self.pages@.len());
        }
        match (self.state, reply) {
            (SharedCollapseState::Begin, _) => match pages_in(self.range, PageSize::Size4K) {
                Ok(pages) => {
                    self.pages = pages;
                    self.at = 0;
                    self.look(shared, effects)
                },
                Err(e) => {
                    self.state = SharedCollapseState::Over;
                    Turn::Finished(Err(e))
                },
            },
            (SharedCollapseState::AwaitEntry, Reply::Entry { paddr: _, flags, size: _ }) => {
                if self.flags.is_none() {
                    self.flags = Some(flags);
                }
                self.at = self.at + 1;
                self.look(shared, effects)
            },
            (SharedCollapseState::AwaitEntry, Reply::Fault(PagingError::NotMapped)) => {
                self.at = self.at + 1;
                self.look(shared, effects)
            },
            (SharedCollapseState::AwaitEntry, _) => {
                self.state = SharedCollapseState::Over;
                Turn::Finished(Err(AxError::BadAddress))
            },
            (SharedCollapseState::Merging, _) => self.step_merge(shared, reply, effects),
            (SharedCollapseState::AwaitRemap, Reply::Done) => {
                self.state = SharedCollapseState::Over;
                Turn::Finished(Ok(true))
            },
            (SharedCollapseState::AwaitRemap, Reply::Fault(e)) => {
                self.state = SharedCollapseState::Over;
                Turn::Finished(Err(e.into_error()))
            },
            _ => unreached(),
        }
    }
}

impl SharedBackend {
    /// The collapse at its start.
    pub open spec fn collapse_of(self, range: VirtAddrRange) -> SharedCollapseView {
        SharedCollapseView {
            backend: self,
            range,
            state: SharedCollapseState::Begin,
            pages: Seq::empty(),
            at: 0,
            flags: None,
            merge: Merge {
                start_pn: page_number(self.inner.start, range.start as int) as u32,
                in_memory: self.inner.cache.in_memory,
                state: MergeState::Begin,
            },
        }
    }

    /// Collapses a window of the size of a huge page.
    pub fn collapse_page(&self, range: VirtAddrRange) -> (r: SharedCollapse)
        requires
            in_mapping(self.inner.start, range),
        ensures
            r@ == self.collapse_of(range),
            r@.wf(),
    {
        let start_pn: u32 = ((range.start - self.inner.start) / PAGE_SIZE_4K) as u32;
        SharedCollapse {
            backend: *self,
            range,
            state: SharedCollapseState::Begin,
            pages: Vec::new(),
            at: 0,
            flags: None,
            merge: self.inner.cache.replace_with_huge_page(start_pn),
        }
    }
}

/// Where a demotion stands.
#[derive(Debug, Clone, Copy, PartialEq, Eq, Structural)]
pub enum DemoteState {
    Begin,
    AwaitEntry,
    AwaitSplit,
    Splitting,
    Over,
}

/// The demotion of the huge pages that a range covers only partly: they are
/// split in the page table, and in the cache where they are huge there too.
#[derive(Debug, Clone, Copy, PartialEq, Eq, Structural)]
pub struct Demote {
    pub backend: SharedBackend,
    pub range: VirtAddrRange,
    pub va: usize,
    pub split: Split,
    pub state: DemoteState,
}

/// The first huge page from the one at `va` on that the range covers only
/// partly, or the end of the huge pages that it touches.
pub open spec fn next_partial(range: VirtAddrRange, va: int) -> int
    decreases range.end - va,
{
    if va >= range.end || range.start > va || range.end < va + THP_PAGE_BYTES {
        va
    } else {
        next_partial(range, va + THP_PAGE_BYTES)
    }
}

impl Demote {
    pub open spec fn wf(self) -> bool {
        &&& in_mapping(self.backend.inner.start, self.range)
        &&& self.backend.inner.start <= huge_base(self.range.start)
        &&& match self.state {
            DemoteState::Begin => true,
            DemoteState::Over => true,
            DemoteState::Splitting => self.placed() && self.split.wf() && !(self.split.state is Begin),
            _ => self.placed(),
        }
    }

    /// Whether the demotion stands at a huge page of the range.
    pub open spec fn placed(self) -> bool {
        huge_base(self.range.start) <= self.va < self.range.end
    }

    /// The number of the small page where the demotion stands.
    pub open spec fn pn(self) -> int {
        page_number(self.backend.inner.start, self.va as int)
    }

    /// Whether the reply can be one to the last request.
    pub open spec fn awaits(self, reply: Reply) -> bool {
        match self.state {
            DemoteState::Begin => reply is Start,
            DemoteState::AwaitEntry => reply is Entry || reply is Fault,
            DemoteState::AwaitSplit => reply is Done || reply is Fault,
            DemoteState::Splitting => self.split.awaits(reply),
            DemoteState::Over => false,
        }
    }

    pub open spec fn ending(
        self,
        cache: CacheView,
        effects: Seq<Effect>,
        result: Result<(), AxError>,
    ) -> CacheStep<Demote, ()> {
        CacheStep {
            next: Demote { state: DemoteState::Over, ..self },
            cache,
            effects,
            turn: Turn::Finished(result),
        }
    }

    /// The demotion turns to the first huge page from `va` on that is covered
    /// only partly.
    pub open spec fn entering(self, va: int, cache: CacheView, effects: Seq<Effect>) -> CacheStep<
        Demote,
        (),
    > {
        let next = next_partial(self.range, va);
        let t = Demote { va: next as usize, ..self };
        if next < self.range.end {
            CacheStep {
                next: Demote { state: DemoteState::AwaitEntry, ..t },
                cache,
                effects,
                turn: Turn::Ask(Request::Query { va: next as usize }),
            }
        } else {
            t.ending(cache, effects, Ok(()))
        }
    }

    /// The demotion after a step of the split in the cache.
    pub open spec fn splitting(self, s: SplitStep) -> CacheStep<Demote, ()> {
        let t = Demote { split: s.next, state: DemoteState::Splitting, ..self };
        match s.turn {
            Turn::Ask(request) => CacheStep {
                next: t,
                cache: s.cache,
                effects: s.effects,
                turn: Turn::Ask(request),
            },
            Turn::Finished(Ok(_)) => t.entering(self.va + THP_PAGE_BYTES, s.cache, s.effects),
            Turn::Finished(Err(e)) => t.ending(s.cache, s.effects, Err(e)),
        }
    }

    /// The demotion after the huge mapping was split: the page under it is split
    /// too if it is a huge one.
    pub open spec fn following(self, cache: CacheView) -> CacheStep<Demote, ()> {
        let m = page_map(cache.pages);
        let (base, size) = chunk_from(m, 0, self.pn());
        let c = cache.with_pages(chunk_order(cache.pages, m, 0, self.pn()));
        if base is Some && size == THP_PAGE_BYTES {
            self.splitting(
                self.backend.inner.cache.split_of(self.pn() as u32).after(c, Reply::Start),
            )
        } else {
            self.entering(self.va + THP_PAGE_BYTES, c, Seq::empty())
        }
    }

    /// What the step does.
    pub open spec fn after(self, cache: CacheView, reply: Reply) -> CacheStep<Demote, ()> {
        match (self.state, reply) {
            (DemoteState::Begin, _) => self.entering(
                huge_base(self.range.start),
                cache,
                Seq::empty(),
            ),
            (DemoteState::Splitting, _) => self.splitting(self.split.after(cache, reply)),
            (DemoteState::AwaitEntry, Reply::Entry { paddr: _, flags: _, size: PageSize::Size2M }) => CacheStep {
                next: Demote { state: DemoteState::AwaitSplit, ..self },
                cache,
                effects: Seq::empty(),
                turn: Turn::Ask(Request::SplitHuge { va: self.va }),
            },
            (DemoteState::AwaitEntry, _) => self.entering(
                self.va + THP_PAGE_BYTES,
                cache,
                Seq::empty(),
            ),
            (DemoteState::AwaitSplit, Reply::Done) => self.following(cache),
            (DemoteState::AwaitSplit, Reply::Fault(e)) => self.ending(
                cache,
                Seq::empty(),
                Err(e.into_error()),
            ),
            _ => arbitrary(),
        }
    }

    /// Turns to the first huge page from `va` on that is covered only partly.
    fn enter(&mut self, va: usize) -> (r: Turn<()>)
        requires
            in_mapping(old(self).backend.inner.start, old(self).range),
            old(self).backend.inner.start <= huge_base(old(self).range.start),
            huge_base(old(self).range.start) <= va,
            va <= old(self).range.end + THP_PAGE_BYTES,
        ensures
            final(self).wf(),
            forall|cache: CacheView, effects: Seq<Effect>|
                ({
                    let s = #[trigger] old(self).entering(va as int, cache, effects);
                    &&& *final(self) == s.next
                    &&& s.cache == cache
                    &&& s.effects == effects
                    &&& r == s.turn
                }),
    {
        let mut vaddr: usize = va;
        while vaddr < self.range.end && !(self.range.start > vaddr || self.range.end < vaddr
            + THP_PAGE_BYTES)
            invariant
                *self == *old(self),
                self.range.low(PageSize::Size2M),
                va <= vaddr <= self.range.end + THP_PAGE_BYTES,
                next_partial(self.range, vaddr as int) == next_partial(self.range, va as int),
            decreases self.range.end + THP_PAGE_BYTES - vaddr,
        {
            vaddr = vaddr + THP_PAGE_BYTES;
        }
        self.va = vaddr;
        if vaddr < self.range.end {
            self.state = DemoteState::AwaitEntry;
            Turn::Ask(Request::Query { va: vaddr })
        } else {
            self.state = DemoteState::Over;
            Turn::Finished(Ok(()))
        }
    }

    /// Takes note of a step of the split in the cache.
    fn step_split(&mut self, shared: &mut CachedFileShared, reply: Reply, effects: &mut Vec<Effect>) -> (r:
        Turn<()>)
        requires
            in_mapping(old(self).backend.inner.start, old(self).range),
            old(self).backend.inner.start <= huge_base(old(self).range.start),
            old(self).placed(),
            old(self).split.wf(),
            old(self).split.awaits(reply),
            old(self).split.splits(old(shared)@),
            old(shared)@.wf(),
        ensures
            final(self).wf(),
            final(shared)@.wf(),
            ({
                let s = old(self).splitting(old(self).split.after(old(shared)@, reply));
                &&& *final(self) == s.next
                &&& final(shared)@ == s.cache
                &&& final(effects)@ == old(effects)@ + s.effects
                &&& r == s.turn
            }),
    {
        self.state = DemoteState::Splitting;
        match self.split.step(shared, reply, effects) {
            Turn::Ask(request) => Turn::Ask(request),
            Turn::Finished(Ok(_)) => {
                let va: usize = self.va + THP_PAGE_BYTES;
                self.enter(va)
            },
            Turn::Finished(Err(e)) => {
                self.state = DemoteState::Over;
                Turn::Finished(Err(e))
            },
        }
    }

    /// Splits the page under a huge mapping that was split.
    fn follow(&mut self, shared: &mut CachedFileShared, effects: &mut Vec<Effect>) -> (r: Turn<()>)
        requires
            old(self).wf(),
            old(self).placed(),
            old(shared)@.wf(),
        ensures
            final(self).wf(),
            final(shared)@.wf(),
            ({
                let s = old(self).following(old(shared)@);
                &&& *final(self) == s.next
                &&& final(shared)@ == s.cache
                &&& final(effects)@ == old(effects)@ + s.effects
                &&& r == s.turn
            }),
    {
        let pn: u32 = ((self.va - self.backend.inner.start) / PAGE_SIZE_4K) as u32;
        let (base, size) = self.backend.inner.cache.locate_chunk(shared, pn);
        if base.is_some() && size == THP_PAGE_BYTES {
            self.split = self.backend.inner.cache.split_huge_page(pn);
            self.step_split(shared, Reply::Start, effects)
        } else {
            let va: usize = self.va + THP_PAGE_BYTES;
            self.enter(va)
        }
    }

    /// Goes on with the demotion.
    pub fn step(&mut self, shared: &mut CachedFileShared, reply: Reply, effects: &mut Vec<Effect>) -> (r:
        Turn<()>)
        requires
            old(self).wf(),
            old(self).awaits(reply),
            old(shared)@.wf(),
        ensures
            final(self).wf(),
            final(shared)@.wf(),
            ({
                let s = old(self).after(old(shared)@, reply);
                &&& *final(self) == s.next
                &&& final(shared)@ == s.cache
                &&& final(effects)@ == old(effects)@ + s.effects
                &&& r == s.turn
            }),
    {
        match (self.state, reply) {
            (DemoteState::Begin, _) => {
                let va: usize = memory_addr::align_down(self.range.start, PAGE_SIZE_2M);
                self.enter(va)
            },
            (DemoteState::Splitting, _) => self.step_split(shared, reply, effects),
            (DemoteState::AwaitEntry, Reply::Entry { paddr: _, flags: _, size: PageSize::Size2M }) => {
                self.state = DemoteState::AwaitSplit;
                Turn::Ask(Request::SplitHuge { va: self.va })
            },
            (DemoteState::AwaitEntry, _) => {
                let va: usize = self.va + THP_PAGE_BYTES;
                self.enter(va)
            },
            (DemoteState::AwaitSplit, Reply::Done) => self.follow(shared, effects),
            (DemoteState::AwaitSplit, Reply::Fault(e)) => {
                self.state = DemoteState::Over;
                Turn::Finished(Err(e.into_error()))
            },
            _ => unreached(),
        }
    }
}

impl SharedBackend {
    /// The demotion at its start.
    pub open spec fn demote_of(self, range: VirtAddrRange) -> Demote {
        Demote {
            backend: self,
            range,
            va: range.start,
            split: self.inner.cache.split_of(0),
            state: DemoteState::Begin,
        }
    }

    /// Demotes the huge pages that a range covers only partly.
    pub fn demote_huge(&self, range: VirtAddrRange) -> (r: Demote)
        requires
            in_mapping(self.inner.start, range),
            self.inner.start <= huge_base(range.start),
        ensures
            r == self.demote_of(range),
            r.wf(),
    {
        Demote {
            backend: *self,
            range,
            va: range.start,
            split: self.inner.cache.split_huge_page(0),
            state: DemoteState::Begin,
        }
    }
}

} // verus!
