//! Shared memory: mappings of a file that all see the same pages.

use vstd::prelude::*;
use vstd::pervasive::unreached;
use crate::addr::{
    is_whole_huge, whole_huge, PageSize, VirtAddrRange, PAGE_SIZE_2M, PAGE_SIZE_4K,
};
use crate::effect::{Effect, Reply, Request, Turn};
use crate::error::{AxError, PagingError};
use crate::flags::VmaFlags;
use crate::fs::cache::{CacheView, CachedFileShared};
use crate::fs::cached_file::CachedFile;
use crate::fs::split::{Split, SplitStep};

verus! {

/// What a mapping of shared memory is.
#[derive(Debug, Clone, Copy, PartialEq, Eq, Structural)]
pub struct SharedBackendInner {
    /// The number by which the mapping is told from others.
    pub id: u64,
    pub start: usize,
    pub cache: CachedFile,
    pub vma_flags: VmaFlags,
}

/// A mapping of shared memory.
#[derive(Debug, Clone, Copy, PartialEq, Eq, Structural)]
pub struct SharedBackend {
    pub inner: SharedBackendInner,
}

/// What a step of an operation on a mapped file does.
pub struct CacheStep<M, T> {
    pub next: M,
    pub cache: CacheView,
    pub effects: Seq<Effect>,
    pub turn: Turn<T>,
}

impl<M, T> CacheStep<M, T> {
    /// The same step after other effects.
    pub open spec fn behind(self, effects: Seq<Effect>) -> CacheStep<M, T> {
        CacheStep { effects: effects + self.effects, ..self }
    }
}

/// The number of the small page at an address of a mapping.
pub open spec fn page_number(start: usize, va: int) -> int {
    (va - start) / PAGE_SIZE_4K as int
}

/// Whether a range lies in a mapping that starts at `start`, and the pages up to
/// its end and those of a huge page behind it have numbers.
pub open spec fn in_mapping(start: usize, range: VirtAddrRange) -> bool {
    &&& range.low(PageSize::Size2M)
    &&& start <= range.start
    &&& (range.end - start) + PAGE_SIZE_2M <= u32::MAX * PAGE_SIZE_4K
}

impl SharedBackend {
    /// The file behind the mapping.
    pub fn cache(&self) -> (r: &CachedFile)
        ensures
            *r == self.inner.cache,
    {
        &self.inner.cache
    }

    /// Whether this is the mapping `inner`.
    pub fn ptr_eq_inner(&self, inner: &SharedBackendInner) -> (r: bool)
        ensures
            r == (self.inner.id == inner.id),
    {
        self.inner.id == inner.id
    }
}

/// Where an unmapping stands.
#[derive(Debug, Clone, Copy, PartialEq, Eq, Structural)]
pub enum SharedUnmapState {
    Begin,
    AwaitEntry,
    AwaitHuge,
    AwaitUnmap,
    AwaitSplit,
    Splitting,
    Over,
}

/// The unmapping of a range of shared memory. A huge page that is only partly in
/// the range is split first, in the page table and in the cache.
#[derive(Debug, Clone, Copy, PartialEq, Eq, Structural)]
pub struct SharedUnmap {
    pub backend: SharedBackend,
    pub range: VirtAddrRange,
    pub va: usize,
    /// The size of the page that is being unmapped.
    pub step: PageSize,
    pub split: Split,
    pub state: SharedUnmapState,
}

impl SharedUnmap {
    pub open spec fn wf(self) -> bool {
        &&& in_mapping(self.backend.inner.start, self.range)
        &&& match self.state {
            SharedUnmapState::Begin => self.va == self.range.start,
            SharedUnmapState::Over => true,
            SharedUnmapState::Splitting => self.range.start <= self.va < self.range.end
                && self.split.wf() && !(self.split.state is Begin),
            SharedUnmapState::AwaitHuge | SharedUnmapState::AwaitUnmap => self.range.start <= self.va
                < self.range.end && !(self.step is Size1G),
            _ => self.range.start <= self.va < self.range.end,
        }
    }

    /// The split of the cached page at the address where the unmapping stands.
    pub open spec fn splitting_here(self) -> Split {
        self.backend.inner.cache.split_of(
            page_number(self.backend.inner.start, self.va as int) as u32,
        )
    }

    /// Whether the reply can be one to the last request: a page of the mapping is
    /// a small or a huge one, and where a huge one is split, the page under it is
    /// huge, too.
    pub open spec fn awaits(self, cache: CacheView, reply: Reply) -> bool {
        match self.state {
            SharedUnmapState::Begin => reply is Start,
            SharedUnmapState::AwaitEntry | SharedUnmapState::AwaitHuge => match reply {
                Reply::Entry { size, .. } => !(size is Size1G),
                _ => reply is Fault,
            },
            SharedUnmapState::AwaitUnmap => reply is Done || reply is Fault,
            SharedUnmapState::AwaitSplit => match reply {
                Reply::Done => self.splitting_here().splits(cache),
                _ => reply is Fault,
            },
            SharedUnmapState::Splitting => self.split.awaits(reply),
            SharedUnmapState::Over => false,
        }
    }

    pub open spec fn asking(self, state: SharedUnmapState, cache: CacheView, request: Request) -> CacheStep<
        SharedUnmap,
        (),
    > {
        CacheStep {
            next: SharedUnmap { state, ..self },
            cache,
            effects: Seq::empty(),
            turn: Turn::Ask(request),
        }
    }

    pub open spec fn ending(
        self,
        cache: CacheView,
        effects: Seq<Effect>,
        result: Result<(), AxError>,
    ) -> CacheStep<SharedUnmap, ()> {
        CacheStep {
            next: SharedUnmap { state: SharedUnmapState::Over, ..self },
            cache,
            effects,
            turn: Turn::Finished(result),
        }
    }

    /// The unmapping turns to the address `va`.
    pub open spec fn entering(self, va: int, cache: CacheView, effects: Seq<Effect>) -> CacheStep<
        SharedUnmap,
        (),
    > {
        let t = SharedUnmap { va: va as usize, ..self };
        if va < self.range.end {
            CacheStep {
                next: SharedUnmap { state: SharedUnmapState::AwaitEntry, ..t },
                cache,
                effects,
                turn: Turn::Ask(Request::Query { va: va as usize }),
            }
        } else {
            t.ending(cache, effects, Ok(()))
        }
    }

    /// The unmapping after a step of the split in the cache.
    pub open spec fn splitting(self, s: SplitStep) -> CacheStep<SharedUnmap, ()> {
        let t = SharedUnmap { split: s.next, state: SharedUnmapState::Splitting, ..self };
        match s.turn {
            Turn::Ask(request) => CacheStep {
                next: t,
                cache: s.cache,
                effects: s.effects,
                turn: Turn::Ask(request),
            },
            Turn::Finished(Ok(_)) => t.entering(self.va as int, s.cache, s.effects),
            Turn::Finished(Err(e)) => t.ending(s.cache, s.effects, Err(e)),
        }
    }

    /// What the step does.
    pub open spec fn after(self, cache: CacheView, reply: Reply) -> CacheStep<SharedUnmap, ()> {
        match (self.state, reply) {
            (SharedUnmapState::Begin, _) => if self.range.aligned_to(PageSize::Size4K) {
                self.entering(self.va as int, cache, Seq::empty())
            } else {
                self.ending(cache, Seq::empty(), Err(AxError::InvalidInput))
            },
            (SharedUnmapState::Splitting, _) => self.splitting(self.split.after(cache, reply)),
            (SharedUnmapState::AwaitEntry, Reply::Entry { paddr: _, flags: _, size }) => {
                let t = SharedUnmap { step: size, ..self };
                if size is Size2M {
                    if whole_huge(self.va, self.range.end) {
                        t.asking(SharedUnmapState::AwaitHuge, cache, Request::Query { va: self.va })
                    } else {
                        t.asking(
                            SharedUnmapState::AwaitSplit,
                            cache,
                            Request::SplitHuge { va: self.va },
                        )
                    }
                } else {
                    t.asking(SharedUnmapState::AwaitUnmap, cache, Request::UnmapPage { va: self.va })
                }
            },
            (SharedUnmapState::AwaitEntry, Reply::Fault(PagingError::NotMapped)) => self.entering(
                self.va + PAGE_SIZE_4K,
                cache,
                Seq::empty(),
            ),
            (SharedUnmapState::AwaitHuge, Reply::Entry { .. }) => self.asking(
                SharedUnmapState::AwaitUnmap,
                cache,
                Request::UnmapPage { va: self.va },
            ),
            (SharedUnmapState::AwaitUnmap, Reply::Done) => self.entering(
                self.va + self.step.bytes(),
                cache,
                Seq::empty(),
            ),
            (SharedUnmapState::AwaitSplit, Reply::Done) => self.splitting(
                self.splitting_here().after(cache, Reply::Start),
            ),
            (_, Reply::Fault(e)) => self.ending(cache, Seq::empty(), Err(e.into_error())),
            _ => arbitrary(),
        }
    }

    /// Turns to the address `va`.
    fn enter(&mut self, va: usize) -> (r: Turn<()>)
        requires
            in_mapping(old(self).backend.inner.start, old(self).range),
            old(self).range.start <= va,
        ensures
            final(self).wf(),
            forall|cache: CacheView, effects: Seq<Effect>|
                ({
                    let s = #[trigger] old(self).entering(va as int, cache, effects);
                    &&& *final(self) == s.next
                    &&& s.cache == cache
                    &&& s.effects == effects
                    &&& r == s.turn
                }),
    {
        self.va = va;
        if va < self.range.end {
            self.state = SharedUnmapState::AwaitEntry;
            Turn::Ask(Request::Query { va })
        } else {
            self.state = SharedUnmapState::Over;
            Turn::Finished(Ok(()))
        }
    }

    /// The split of the cached page at the address where the unmapping stands.
    fn split_here(&self) -> (r: Split)
        requires
            in_mapping(self.backend.inner.start, self.range),
            self.range.start <= self.va < self.range.end,
        ensures
            r == self.splitting_here(),
            r.wf(),
    {
        let pn: usize = (self.va - self.backend.inner.start) / PAGE_SIZE_4K;
        self.backend.inner.cache.split_huge_page(pn as u32)
    }

    /// Takes note of a step of the split in the cache.
    fn step_split(&mut self, shared: &mut CachedFileShared, reply: Reply, effects: &mut Vec<Effect>) -> (r:
        Turn<()>)
        requires
            in_mapping(old(self).backend.inner.start, old(self).range),
            old(self).range.start <= old(self).va < old(self).range.end,
            old(self).split.wf(),
            old(self).split.awaits(reply),
            old(self).split.splits(old(shared)@),
            old(shared)@.wf(),
        ensures
            final(self).wf(),
            final(shared)@.wf(),
            ({
                let s = old(self).splitting(old(self).split.after(old(shared)@, reply));
                &&& *final(self) == s.next
                &&& final(shared)@ == s.cache
                &&& final(effects)@ == old(effects)@ + s.effects
                &&& r == s.turn
            }),
    {
        self.state = SharedUnmapState::Splitting;
        match self.split.step(shared, reply, effects) {
            Turn::Ask(request) => Turn::Ask(request),
            Turn::Finished(Ok(_)) => self.enter(self.va),
            Turn::Finished(Err(e)) => {
                self.state = SharedUnmapState::Over;
                Turn::Finished(Err(e))
            },
        }
    }

    /// Goes on with the unmapping.
    pub fn step(&mut self, shared: &mut CachedFileShared, reply: Reply, effects: &mut Vec<Effect>) -> (r:
        Turn<()>)
        requires
            old(self).wf(),
            old(self).awaits(old(shared)@, reply),
            old(shared)@.wf(),
        ensures
            final(self).wf(),
            final(shared)@.wf(),
            ({
                let s = old(self).after(old(shared)@, reply);
                &&& *final(self) == s.next
                &&& final(shared)@ == s.cache
                &&& final(effects)@ == old(effects)@ + s.effects
                &&& r == s.turn
            }),
    {
        match (self.state, reply) {
            (SharedUnmapState::Begin, _) => {
                if self.range.is_aligned_to(PageSize::Size4K) {
                    self.enter(self.va)
                } else {
                    self.state = SharedUnmapState::Over;
                    Turn::Finished(Err(AxError::InvalidInput))
                }
            },
            (SharedUnmapState::Splitting, _) => self.step_split(shared, reply, effects),
            (SharedUnmapState::AwaitEntry, Reply::Entry { paddr: _, flags: _, size }) => {
                self.step = size;
                if size == PageSize::Size2M {
                    if is_whole_huge(self.va, self.range.end) {
                        self.state = SharedUnmapState::AwaitHuge;
                        Turn::Ask(Request::Query { va: self.va })
                    } else {
                        self.state = SharedUnmapState::AwaitSplit;
                        Turn::Ask(Request::SplitHuge { va: self.va })
                    }
                } else {
                    self.state = SharedUnmapState::AwaitUnmap;
                    Turn::Ask(Request::UnmapPage { va: self.va })
                }
            },
            (SharedUnmapState::AwaitEntry, Reply::Fault(PagingError::NotMapped)) => {
                let va: usize = self.va + PAGE_SIZE_4K;
                self.enter(va)
            },
            (SharedUnmapState::AwaitHuge, Reply::Entry { .. }) => {
                self.state = SharedUnmapState::AwaitUnmap;
                Turn::Ask(Request::UnmapPage { va: self.va })
            },
            (SharedUnmapState::AwaitUnmap, Reply::Done) => {
                let va: usize = self.va + self.step.bytes();
                self.enter(va)
            },
            (SharedUnmapState::AwaitSplit, Reply::Done) => {
                self.split = self.split_here();
                self.step_split(shared, Reply::Start, effects)
            },
            (_, Reply::Fault(e)) => {
                self.state = SharedUnmapState::Over;
                Turn::Finished(Err(e.into_error()))
            },
            _ => unreached(),
        }
    }
}

impl SharedBackend {
    /// The unmapping at its start.
    pub open spec fn unmap_of(self, range: VirtAddrRange) -> SharedUnmap {
        SharedUnmap {
            backend: self,
            range,
            va: range.start,
            step: PageSize::Size4K,
            split: self.inner.cache.split_of(0),
            state: SharedUnmapState::Begin,
        }
    }

    /// Unmaps a range.
    pub fn unmap(&self, range: VirtAddrRange) -> (r: SharedUnmap)
        requires
            in_mapping(self.inner.start, range),
        ensures
            r == self.unmap_of(range),
            r.wf(),
    {
        SharedUnmap {
            backend: *self,
            range,
            va: range.start,
            step: PageSize::Size4K,
            split: self.inner.cache.split_huge_page(0),
            state: SharedUnmapState::Begin,
        }
    }
}

} // verus!
