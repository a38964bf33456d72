//! Private memory: anonymous, or a private copy of a file.

use vstd::prelude::*;
use vstd::pervasive::unreached;
use crate::addr::{
    is_whole_huge, whole_huge, PageSize, VirtAddrRange, PAGE_SIZE_2M, THP_NR_4K_PAGES,
};
use crate::effect::{Effect, Reply, Request, Turn};
use crate::error::AxError;
use crate::flags::VmaFlags;
use crate::fs::backend::FileBackend;
use crate::mm::frames::{
    all_decremented, all_dropped, counts_ok, decremented, dropped, FrameTable,
};

verus! {

/// The file behind a private mapping: the file, the offset that the first byte
/// of the mapping has in it, and the offset at which the mapped part ends.
#[derive(Debug, Clone, Copy, PartialEq, Eq, Structural)]
pub struct BackingFile {
    pub file: FileBackend,
    pub file_start: u64,
    pub file_end: Option<u64>,
}

/// A mapping whose pages are copied when they are written while shared.
#[derive(Debug, Clone, Copy, PartialEq, Eq, Structural)]
pub struct CowBackend {
    pub start: usize,
    pub size: PageSize,
    pub file: Option<BackingFile>,
    pub vma_flags: VmaFlags,
}

/// What a step of an operation on private memory does.
pub struct FrameStep<M, T> {
    pub next: M,
    pub frames: Map<usize, u8>,
    pub effects: Seq<Effect>,
    pub turn: Turn<T>,
}

/// Where an unmapping stands.
#[derive(Debug, Clone, Copy, PartialEq, Eq, Structural)]
pub enum CowUnmapState {
    Begin,
    AwaitEntry,
    AwaitHuge,
    AwaitUnmap,
    AwaitSplit,
    Over,
}

/// The unmapping of a range of private memory. Each mapped frame is counted off
/// and given back if that was its last mapping. A huge page that is only partly
/// in the range is split first.
#[derive(Debug, Clone, Copy, PartialEq, Eq, Structural)]
pub struct CowUnmap {
    pub size: PageSize,
    pub range: VirtAddrRange,
    pub va: usize,
    /// The size of the page that is being unmapped.
    pub step: PageSize,
    pub state: CowUnmapState,
}

impl CowUnmap {
    pub open spec fn wf(self) -> bool {
        &&& self.range.low(self.size.largest())
        &&& match self.state {
            CowUnmapState::Begin => self.va == self.range.start,
            CowUnmapState::Over => true,
            CowUnmapState::AwaitHuge => self.va < self.range.end && self.step is Size2M
                && self.size is Size4K,
            CowUnmapState::AwaitUnmap => self.va < self.range.end && self.step.bytes()
                <= self.size.largest().bytes(),
            _ => self.va < self.range.end,
        }
    }

    /// Whether the reply can be one to the last request: a page is no larger than
    /// those that the mapping can hold.
    pub open spec fn awaits(self, reply: Reply) -> bool {
        match self.state {
            CowUnmapState::Begin => reply is Start,
            CowUnmapState::AwaitEntry => match reply {
                Reply::Entry { size, .. } => size.bytes() <= self.size.largest().bytes(),
                _ => reply is Fault,
            },
            CowUnmapState::AwaitHuge => match reply {
                Reply::Entry { paddr, .. } => paddr + PAGE_SIZE_2M <= usize::MAX,
                _ => reply is Fault,
            },
            CowUnmapState::AwaitUnmap => reply is Done || reply is Fault,
            CowUnmapState::AwaitSplit => reply is Done || reply is Fault,
            CowUnmapState::Over => false,
        }
    }

    pub open spec fn asking(
        self,
        state: CowUnmapState,
        frames: Map<usize, u8>,
        effects: Seq<Effect>,
        request: Request,
    ) -> FrameStep<CowUnmap, ()> {
        FrameStep { next: CowUnmap { state, ..self }, frames, effects, turn: Turn::Ask(request) }
    }

    pub open spec fn ending(self, frames: Map<usize, u8>, result: Result<(), AxError>) -> FrameStep<
        CowUnmap,
        (),
    > {
        FrameStep {
            next: CowUnmap { state: CowUnmapState::Over, ..self },
            frames,
            effects: Seq::empty(),
            turn: Turn::Finished(result),
        }
    }

    /// The unmapping turns to the address `va`.
    pub open spec fn entering(self, va: int, frames: Map<usize, u8>) -> FrameStep<CowUnmap, ()> {
        let t = CowUnmap { va: va as usize, ..self };
        if va < self.range.end {
            t.asking(CowUnmapState::AwaitEntry, frames, Seq::empty(), Request::Query { va: va as usize })
        } else {
            t.ending(frames, Ok(()))
        }
    }

    /// What the step does.
    pub open spec fn after(self, frames: Map<usize, u8>, reply: Reply) -> FrameStep<CowUnmap, ()> {
        match (self.state, reply) {
            (CowUnmapState::Begin, _) => if self.range.aligned_to(self.size) {
                self.entering(self.va as int, frames)
            } else {
                self.ending(frames, Err(AxError::InvalidInput))
            },
            (CowUnmapState::AwaitEntry, Reply::Entry { paddr, flags: _, size }) => {
                let t = CowUnmap { step: size, ..self };
                if size is Size2M && self.size is Size4K {
                    if whole_huge(self.va, self.range.end) {
                        t.asking(
                            CowUnmapState::AwaitHuge,
                            frames,
                            Seq::empty(),
                            Request::Query { va: self.va },
                        )
                    } else {
                        t.asking(
                            CowUnmapState::AwaitSplit,
                            frames,
                            Seq::empty(),
                            Request::SplitHuge { va: self.va },
                        )
                    }
                } else {
                    t.asking(
                        CowUnmapState::AwaitUnmap,
                        decremented(frames, paddr),
                        dropped(frames, paddr, size),
                        Request::UnmapPage { va: self.va },
                    )
                }
            },
            (CowUnmapState::AwaitEntry, _) => self.entering(self.va + self.size.bytes(), frames),
            (CowUnmapState::AwaitHuge, Reply::Entry { paddr, flags: _, size: _ }) => self.asking(
                CowUnmapState::AwaitUnmap,
                all_decremented(frames, paddr, THP_NR_4K_PAGES as nat),
                all_dropped(frames, paddr, THP_NR_4K_PAGES as nat),
                Request::UnmapPage { va: self.va },
            ),
            (CowUnmapState::AwaitUnmap, Reply::Done) => self.entering(
                self.va + self.step.bytes(),
                frames,
            ),
            (CowUnmapState::AwaitSplit, Reply::Done) => self.entering(self.va as int, frames),
            (_, Reply::Fault(e)) => self.ending(frames, Err(e.into_error())),
            _ => arbitrary(),
        }
    }

    /// Turns to the address `va`.
    fn enter(&mut self, va: usize) -> (r: Turn<()>)
        requires
            old(self).range.low(old(self).size.largest()),
        ensures
            final(self).wf(),
            forall|frames: Map<usize, u8>|
                ({
                    let s = #[trigger] old(self).entering(va as int, frames);
                    &&& *final(self) == s.next
                    &&& s.frames == frames
                    &&& s.effects == Seq::<Effect>::empty()
                    &&& r == s.turn
                }),
    {
        self.va = va;
        if va < self.range.end {
            self.state = CowUnmapState::AwaitEntry;
            Turn::Ask(Request::Query { va })
        } else {
            self.state = CowUnmapState::Over;
            Turn::Finished(Ok(()))
        }
    }

    /// Goes on with the unmapping.
    pub fn step(&mut self, frames: &mut FrameTable, reply: Reply, effects: &mut Vec<Effect>) -> (r:
        Turn<()>)
        requires
            old(self).wf(),
            old(self).awaits(reply),
            counts_ok(old(frames)@),
        ensures
            final(self).wf(),
            counts_ok(final(frames)@),
            ({
                let s = old(self).after(old(frames)@, reply);
                &&& *final(self) == s.next
                &&& final(frames)@ == s.frames
                &&& final(effects)@ == old(effects)@ + s.effects
                &&& r == s.turn
            }),
    {
        match (self.state, reply) {
            (CowUnmapState::Begin, _) => {
                if self.range.is_aligned_to(self.size) {
                    self.enter(self.va)
                } else {
                    self.state = CowUnmapState::Over;
                    Turn::Finished(Err(AxError::InvalidInput))
                }
            },
            (CowUnmapState::AwaitEntry, Reply::Entry { paddr, flags: _, size }) => {
                self.step = size;
                if size == PageSize::Size2M && self.size == PageSize::Size4K {
                    if is_whole_huge(self.va, self.range.end) {
                        self.state = CowUnmapState::AwaitHuge;
                        Turn::Ask(Request::Query { va: self.va })
                    } else {
                        self.state = CowUnmapState::AwaitSplit;
                        Turn::Ask(Request::SplitHuge { va: self.va })
                    }
                } else {
                    frames.drop_frame_ref(paddr, size, effects);
                    self.state = CowUnmapState::AwaitUnmap;
                    Turn::Ask(Request::UnmapPage { va: self.va })
                }
            },
            (CowUnmapState::AwaitEntry, _) => {
                let va: usize = self.va + self.size.bytes();
                self.enter(va)
            },
            (CowUnmapState::AwaitHuge, Reply::Entry { paddr, flags: _, size: _ }) => {
                frames.drop_block(paddr, effects);
                self.state = CowUnmapState::AwaitUnmap;
                Turn::Ask(Request::UnmapPage { va: self.va })
            },
            (CowUnmapState::AwaitUnmap, Reply::Done) => {
                let va: usize = self.va + self.step.bytes();
                self.enter(va)
            },
            (CowUnmapState::AwaitSplit, Reply::Done) => self.enter(self.va),
            (_, Reply::Fault(e)) => {
                self.state = CowUnmapState::Over;
                Turn::Finished(Err(e.into_error()))
            },
            _ => unreached(),
        }
    }
}

impl CowBackend {
    /// Unmaps a range.
    pub fn unmap(&self, range: VirtAddrRange) -> (r: CowUnmap)
        requires
            range.low(self.size.largest()),
        ensures
            r == (CowUnmap {
                size: self.size,
                range,
                va: range.start,
                step: PageSize::Size4K,
                state: CowUnmapState::Begin,
            }),
            r.wf(),
    {
        CowUnmap {
            size: self.size,
            range,
            va: range.start,
            step: PageSize::Size4K,
            state: CowUnmapState::Begin,
        }
    }
}

} // verus!
