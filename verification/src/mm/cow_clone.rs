//! Sharing private memory with a copy of the address space.

use vstd::prelude::*;
use vstd::pervasive::unreached;
use crate::addr::{
    is_whole_huge, whole_huge, PageSize, VirtAddrRange, PAGE_SIZE_2M, THP_NR_4K_PAGES,
};
use crate::effect::{Effect, Reply, Request, Turn};
use crate::error::{AxError, PagingError};
use crate::flags::MappingFlags;
use crate::mm::cow::{CowBackend, FrameStep};
use crate::mm::frames::{
    all_incremented, block_has_room, count, incremented, FrameTable,
};

verus! {

/// Where a duplication stands.
#[derive(Debug, Clone, Copy, PartialEq, Eq, Structural)]
pub enum CowCloneState {
    Begin,
    AwaitEntry,
    AwaitHuge,
    AwaitProtect,
    AwaitMap,
    AwaitSplit,
    Over,
}

/// The duplication of a range of private memory into another page table. Every
/// mapped page is mapped there too, and may be written in neither place from
/// then on. A huge page that is only partly in the range is split first.
#[derive(Debug, Clone, Copy, PartialEq, Eq, Structural)]
pub struct CowClone {
    pub backend: CowBackend,
    pub range: VirtAddrRange,
    /// The rights of the pages in both places.
    pub cow_flags: MappingFlags,
    pub va: usize,
    /// The page that is being duplicated.
    pub paddr: usize,
    pub step: PageSize,
    pub state: CowCloneState,
}

impl CowClone {
    pub open spec fn wf(self) -> bool {
        &&& self.range.low(self.backend.size.largest())
        &&& match self.state {
            CowCloneState::Begin => self.va == self.range.start,
            CowCloneState::Over => true,
            CowCloneState::AwaitHuge => self.va < self.range.end && self.step is Size2M
                && self.backend.size is Size4K,
            CowCloneState::AwaitProtect | CowCloneState::AwaitMap => self.va < self.range.end
                && self.step.bytes() <= self.backend.size.largest().bytes(),
            _ => self.va < self.range.end,
        }
    }

    /// Whether the reply can be one to the last request: a page is no larger than
    /// those that the mapping can hold, and the frames that get another mapping
    /// can be counted.
    pub open spec fn awaits(self, frames: Map<usize, u8>, reply: Reply) -> bool {
        match self.state {
            CowCloneState::Begin => reply is Start,
            CowCloneState::AwaitEntry => match reply {
                Reply::Entry { paddr, flags: _, size } => {
                    &&& size.bytes() <= self.backend.size.largest().bytes()
                    &&& !(size is Size2M && self.backend.size is Size4K) ==> count(frames, paddr)
                        < u8::MAX
                },
                _ => reply is Fault,
            },
            CowCloneState::AwaitHuge => match reply {
                Reply::Entry { paddr, .. } => paddr + PAGE_SIZE_2M <= usize::MAX && block_has_room(
                    frames,
                    paddr,
                ),
                _ => reply is Fault,
            },
            CowCloneState::Over => false,
            _ => reply is Done || reply is Fault,
        }
    }

    pub open spec fn asking(
        self,
        state: CowCloneState,
        frames: Map<usize, u8>,
        request: Request,
    ) -> FrameStep<CowClone, CowBackend> {
        FrameStep {
            next: CowClone { state, ..self },
            frames,
            effects: Seq::empty(),
            turn: Turn::Ask(request),
        }
    }

    pub open spec fn ending(self, frames: Map<usize, u8>, result: Result<CowBackend, AxError>) -> FrameStep<
        CowClone,
        CowBackend,
    > {
        FrameStep {
            next: CowClone { state: CowCloneState::Over, ..self },
            frames,
            effects: Seq::empty(),
            turn: Turn::Finished(result),
        }
    }

    /// The duplication turns to the address `va`.
    pub open spec fn entering(self, va: int, frames: Map<usize, u8>) -> FrameStep<
        CowClone,
        CowBackend,
    > {
        let t = CowClone { va: va as usize, ..self };
        if va < self.range.end {
            t.asking(CowCloneState::AwaitEntry, frames, Request::Query { va: va as usize })
        } else {
            t.ending(frames, Ok(self.backend))
        }
    }

    /// What the step does.
    pub open spec fn after(self, frames: Map<usize, u8>, reply: Reply) -> FrameStep<
        CowClone,
        CowBackend,
    > {
        match (self.state, reply) {
            (CowCloneState::Begin, _) => if self.range.aligned_to(self.backend.size) {
                self.entering(self.va as int, frames)
            } else {
                self.ending(frames, Err(AxError::InvalidInput))
            },
            (CowCloneState::AwaitEntry, Reply::Entry { paddr, flags: _, size }) => {
                let t = CowClone { step: size, paddr, ..self };
                if size is Size2M && self.backend.size is Size4K {
                    if whole_huge(self.va, self.range.end) {
                        t.asking(CowCloneState::AwaitHuge, frames, Request::Query { va: self.va })
                    } else {
                        t.asking(
                            CowCloneState::AwaitSplit,
                            frames,
                            Request::SplitHuge { va: self.va },
                        )
                    }
                } else {
                    t.asking(
                        CowCloneState::AwaitProtect,
                        incremented(frames, paddr),
                        Request::Protect { va: self.va, flags: self.cow_flags },
                    )
                }
            },
            (CowCloneState::AwaitEntry, Reply::Fault(PagingError::NotMapped)) => self.entering(
                self.va + self.backend.size.bytes(),
                frames,
            ),
            (CowCloneState::AwaitEntry, _) => self.ending(frames, Err(AxError::BadAddress)),
            (CowCloneState::AwaitHuge, Reply::Entry { paddr, flags: _, size: _ }) => CowClone {
                paddr,
                ..self
            }.asking(
                CowCloneState::AwaitProtect,
                all_incremented(frames, paddr, THP_NR_4K_PAGES as nat),
                Request::Protect { va: self.va, flags: self.cow_flags },
            ),
            (CowCloneState::AwaitProtect, Reply::Done) => self.asking(
                CowCloneState::AwaitMap,
                frames,
                Request::MapInCopy {
                    va: self.va,
                    paddr: self.paddr,
                    size: self.step,
                    flags: self.cow_flags,
                },
            ),
            (CowCloneState::AwaitMap, Reply::Done) => self.entering(
                self.va + self.step.bytes(),
                frames,
            ),
            (CowCloneState::AwaitSplit, Reply::Done) => self.entering(self.va as int, frames),
            (_, Reply::Fault(e)) => self.ending(frames, Err(e.into_error())),
            _ => arbitrary(),
        }
    }

    /// Turns to the address `va`.
    fn enter(&mut self, va: usize) -> (r: Turn<CowBackend>)
        requires
            old(self).range.low(old(self).backend.size.largest()),
        ensures
            final(self).wf(),
            forall|frames: Map<usize, u8>|
                ({
                    let s = #[trigger] old(self).entering(va as int, frames);
                    &&& *final(self) == s.next
                    &&& s.frames == frames
                    &&& s.effects == Seq::<Effect>::empty()
                    &&& r == s.turn
                }),
    {
        self.va = va;
        if va < self.range.end {
            self.state = CowCloneState::AwaitEntry;
            Turn::Ask(Request::Query { va })
        } else {
            self.state = CowCloneState::Over;
            Turn::Finished(Ok(self.backend))
        }
    }

    /// Goes on with the duplication.
    pub fn step(&mut self, frames: &mut FrameTable, reply: Reply) -> (r: Turn<CowBackend>)
        requires
            old(self).wf(),
            old(self).awaits(old(frames)@, reply),
        ensures
            final(self).wf(),
            ({
                let s = old(self).after(old(frames)@, reply);
                &&& *final(self) == s.next
                &&& final(frames)@ == s.frames
                &&& s.effects == Seq::<Effect>::empty()
                &&& r == s.turn
            }),
    {
        match (self.state, reply) {
            (CowCloneState::Begin, _) => {
                if self.range.is_aligned_to(self.backend.size) {
                    self.enter(self.va)
                } else {
                    self.state = CowCloneState::Over;
                    Turn::Finished(Err(AxError::InvalidInput))
                }
            },
            (CowCloneState::AwaitEntry, Reply::Entry { paddr, flags: _, size }) => {
                self.step = size;
                self.paddr = paddr;
                if size == PageSize::Size2M && self.backend.size == PageSize::Size4K {
                    if is_whole_huge(self.va, self.range.end) {
                        self.state = CowCloneState::AwaitHuge;
                        Turn::Ask(Request::Query { va: self.va })
                    } else {
                        self.state = CowCloneState::AwaitSplit;
                        Turn::Ask(Request::SplitHuge { va: self.va })
                    }
                } else {
                    frames.inc_frame_ref(paddr);
                    self.state = CowCloneState::AwaitProtect;
                    Turn::Ask(Request::Protect { va: self.va, flags: self.cow_flags })
                }
            },
            (CowCloneState::AwaitEntry, Reply::Fault(PagingError::NotMapped)) => {
                let va: usize = self.va + self.backend.size.bytes();
                self.enter(va)
            },
            (CowCloneState::AwaitEntry, _) => {
                self.state = CowCloneState::Over;
                Turn::Finished(Err(AxError::BadAddress))
            },
            (CowCloneState::AwaitHuge, Reply::Entry { paddr, flags: _, size: _ }) => {
                frames.inc_block(paddr);
                self.paddr = paddr;
                self.state = CowCloneState::AwaitProtect;
                Turn::Ask(Request::Protect { va: self.va, flags: self.cow_flags })
            },
            (CowCloneState::AwaitProtect, Reply::Done) => {
                self.state = CowCloneState::AwaitMap;
                Turn::Ask(
                    Request::MapInCopy {
                        va: self.va,
                        paddr: self.paddr,
                        size: self.step,
                        flags: self.cow_flags,
                    },
                )
            },
            (CowCloneState::AwaitMap, Reply::Done) => {
                let va: usize = self.va + self.step.bytes();
                self.enter(va)
            },
            (CowCloneState::AwaitSplit, Reply::Done) => self.enter(self.va),
            (_, Reply::Fault(e)) => {
                self.state = CowCloneState::Over;
                Turn::Finished(Err(e.into_error()))
            },
            _ => unreached(),
        }
    }
}

impl CowBackend {
    /// The duplication at its start.
    pub open spec fn clone_of(self, range: VirtAddrRange, flags: MappingFlags) -> CowClone {
        CowClone {
            backend: self,
            range,
            cow_flags: flags.read_only(),
            va: range.start,
            paddr: 0,
            step: PageSize::Size4K,
            state: CowCloneState::Begin,
        }
    }

    /// Duplicates a range with the rights `flags` into another page table.
    pub fn clone_map(&self, range: VirtAddrRange, flags: MappingFlags) -> (r: CowClone)
        requires
            range.low(self.size.largest()),
        ensures
            r == self.clone_of(range, flags),
            r.wf(),
    {
        CowClone {
            backend: *self,
            range,
            cow_flags: flags.read_only(),
            va: range.start,
            paddr: 0,
            step: PageSize::Size4K,
            state: CowCloneState::Begin,
        }
    }
}

} // verus!
