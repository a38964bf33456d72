//! Bringing private memory in.

use vstd::prelude::*;
use vstd::pervasive::unreached;
use crate::addr::{PageSize, VirtAddrRange, PAGE_SIZE_4K};
use crate::effect::{Effect, Reply, Request, Turn};
use crate::error::{AxError, PagingError};
use crate::flags::MappingFlags;
use crate::mm::cow::{BackingFile, CowBackend, FrameStep};
use crate::mm::frames::{count, counts_ok, decremented, incremented, FrameTable};

verus! {

/// Where a population stands.
#[derive(Debug, Clone, Copy, PartialEq, Eq, Structural)]
pub enum CowPopulateState {
    Begin,
    AwaitEntry,
    AwaitSplit,
    AwaitProtect,
    AwaitCopy,
    AwaitRemap,
    AwaitFrame,
    AwaitFill,
    AwaitMap,
    Over,
}

/// The population of a range of private memory. A page that is not there gets a
/// new frame, with zeros or with the file's bytes in it. A page that is to be
/// written but may not be is made writable, after it was copied if its frame has
/// another mapping. A huge page is split.
#[derive(Debug, Clone, Copy, PartialEq, Eq, Structural)]
pub struct CowPopulate {
    pub backend: CowBackend,
    pub range: VirtAddrRange,
    pub flags: MappingFlags,
    pub access_flags: MappingFlags,
    pub va: usize,
    /// How many pages satisfy the access so far.
    pub pages: usize,
    /// The frame that is being copied, or the one that is being filled.
    pub frame: usize,
    pub state: CowPopulateState,
}

/// What is read of the file into a new frame at an address: the offset in the
/// frame, the number of bytes, and the offset in the file. The frame stays clean
/// before the start of the mapping and behind the end of the mapped part.
pub open spec fn filling(backend: CowBackend, backing: BackingFile, va: usize) -> (int, int, int) {
    let gap = if va < backend.start {
        backend.start - va
    } else {
        0
    };
    let offset = backing.file_start + if va > backend.start {
        va - backend.start
    } else {
        0
    };
    let room = backend.size.bytes() - gap;
    let len = match backing.file_end {
        Some(end) => if end <= offset {
            0
        } else if end - offset < room {
            end - offset
        } else {
            room
        },
        None => room,
    };
    (gap, len, offset)
}

impl CowBackend {
    /// Whether a range can be populated from the file: it starts less than a
    /// page before the mapping, and the offsets in the file up to its end are
    /// numbers.
    pub open spec fn can_fill(self, range: VirtAddrRange) -> bool {
        match self.file {
            Some(backing) => {
                &&& self.start < range.start + self.size.bytes()
                &&& backing.file_start + (range.end - self.start) <= u64::MAX
            },
            None => true,
        }
    }

    /// Asks for the file's bytes in a new frame.
    fn fill(&self, backing: BackingFile, va: usize, frame: usize) -> (r: Request)
        requires
            self.start < va + self.size.bytes(),
            backing.file_start + (va - self.start) <= u64::MAX,
            frame + self.size.bytes() <= usize::MAX,
        ensures
            ({
                let (gap, len, offset) = filling(*self, backing, va);
                r == (Request::FileRead {
                    paddr: (frame + gap) as usize,
                    len: len as usize,
                    offset: offset as u64,
                })
            }),
    {
        let gap: usize = self.start.saturating_sub(va);
        let offset: u64 = backing.file_start + va.saturating_sub(self.start) as u64;
        let room: u64 = (self.size.bytes() - gap) as u64;
        let left: u64 = match backing.file_end {
            Some(end) => end.saturating_sub(offset),
            None => u64::MAX,
        };
        let len: usize = if left < room {
            left as usize
        } else {
            room as usize
        };
        Request::FileRead { paddr: frame + gap, len, offset }
    }
}

impl CowPopulate {
    pub open spec fn wf(self) -> bool {
        &&& self.range.low(self.backend.size)
        &&& self.backend.can_fill(self.range)
        &&& match self.state {
            CowPopulateState::Begin => self.va == self.range.start && self.pages == 0,
            CowPopulateState::Over => true,
            _ => {
                &&& self.range.start <= self.va < self.range.end
                &&& self.pages * PAGE_SIZE_4K <= self.va - self.range.start
                &&& (self.state is AwaitFill ==> self.frame + self.backend.size.bytes()
                    <= usize::MAX)
            },
        }
    }

    /// Whether the reply can be one to the last request: a frame that is written
    /// on fault has a count, and a new frame can be counted.
    pub open spec fn awaits(self, frames: Map<usize, u8>, reply: Reply) -> bool {
        match self.state {
            CowPopulateState::Begin => reply is Start,
            CowPopulateState::AwaitEntry => match reply {
                Reply::Entry { paddr, flags, size } => self.breaks(flags, size) ==> count(
                    frames,
                    paddr,
                ) > 0,
                _ => reply is Fault,
            },
            CowPopulateState::AwaitCopy | CowPopulateState::AwaitFrame => match reply {
                Reply::Addr(paddr) => paddr + self.backend.size.bytes() <= usize::MAX && count(
                    frames,
                    paddr,
                ) < u8::MAX,
                _ => reply is Failed,
            },
            CowPopulateState::AwaitFill => reply is Done || reply is Failed,
            CowPopulateState::Over => false,
            _ => reply is Done || reply is Fault,
        }
    }

    /// Whether a mapped page is to be written but may not be.
    pub open spec fn breaks(self, flags: MappingFlags, size: PageSize) -> bool {
        &&& !(size is Size2M && self.backend.size is Size4K)
        &&& self.access_flags.writable()
        &&& !flags.writable()
    }

    pub open spec fn asking(
        self,
        state: CowPopulateState,
        frames: Map<usize, u8>,
        effects: Seq<Effect>,
        request: Request,
    ) -> FrameStep<CowPopulate, usize> {
        FrameStep { next: CowPopulate { state, ..self }, frames, effects, turn: Turn::Ask(request) }
    }

    pub open spec fn ending(self, frames: Map<usize, u8>, result: Result<usize, AxError>) -> FrameStep<
        CowPopulate,
        usize,
    > {
        FrameStep {
            next: CowPopulate { state: CowPopulateState::Over, ..self },
            frames,
            effects: Seq::empty(),
            turn: Turn::Finished(result),
        }
    }

    /// The population turns to the address where it stands.
    pub open spec fn entering(self, frames: Map<usize, u8>) -> FrameStep<CowPopulate, usize> {
        if self.va < self.range.end {
            self.asking(
                CowPopulateState::AwaitEntry,
                frames,
                Seq::empty(),
                Request::Query { va: self.va },
            )
        } else {
            self.ending(frames, Ok(self.pages))
        }
    }

    /// The population turns to the next page. This one counts if it satisfies the
    /// access.
    pub open spec fn advancing(self, frames: Map<usize, u8>, satisfied: bool) -> FrameStep<
        CowPopulate,
        usize,
    > {
        CowPopulate {
            pages: if satisfied {
                (self.pages + 1) as usize
            } else {
                self.pages
            },
            va: (self.va + self.backend.size.bytes()) as usize,
            ..self
        }.entering(frames)
    }

    pub open spec fn mapping(self, frames: Map<usize, u8>) -> FrameStep<CowPopulate, usize> {
        self.asking(
            CowPopulateState::AwaitMap,
            frames,
            Seq::empty(),
            Request::MapPage {
                va: self.va,
                paddr: self.frame,
                size: self.backend.size,
                flags: self.flags,
            },
        )
    }

    /// What the step does.
    pub open spec fn after(self, frames: Map<usize, u8>, reply: Reply) -> FrameStep<
        CowPopulate,
        usize,
    > {
        match (self.state, reply) {
            (CowPopulateState::Begin, _) => if self.range.aligned_to(self.backend.size) {
                self.entering(frames)
            } else {
                self.ending(frames, Err(AxError::InvalidInput))
            },
            (CowPopulateState::AwaitEntry, Reply::Entry { paddr, flags, size }) => if size is Size2M
                && self.backend.size is Size4K {
                self.asking(
                    CowPopulateState::AwaitSplit,
                    frames,
                    Seq::empty(),
                    Request::SplitHuge { va: self.va },
                )
            } else if self.breaks(flags, size) {
                if count(frames, paddr) == 1 {
                    self.asking(
                        CowPopulateState::AwaitProtect,
                        frames,
                        Seq::empty(),
                        Request::Protect { va: self.va, flags: self.flags },
                    )
                } else {
                    CowPopulate { frame: paddr, ..self }.asking(
                        CowPopulateState::AwaitCopy,
                        decremented(frames, paddr),
                        Seq::empty(),
                        Request::AllocFrame { zeroed: false, size: self.backend.size },
                    )
                }
            } else {
                self.advancing(frames, flags.contains(self.access_flags))
            },
            (CowPopulateState::AwaitEntry, Reply::Fault(PagingError::NotMapped)) => self.asking(
                CowPopulateState::AwaitFrame,
                frames,
                Seq::empty(),
                Request::AllocFrame { zeroed: true, size: self.backend.size },
            ),
            (CowPopulateState::AwaitEntry, _) => self.ending(frames, Err(AxError::BadAddress)),
            (CowPopulateState::AwaitSplit, Reply::Done) => self.entering(frames),
            (CowPopulateState::AwaitCopy, Reply::Addr(paddr)) => self.asking(
                CowPopulateState::AwaitRemap,
                incremented(frames, paddr),
                seq![
                    Effect::Copy { src: self.frame, dst: paddr, len: self.backend.size.bytes() },
                ],
                Request::Remap { va: self.va, paddr, flags: self.flags },
            ),
            (CowPopulateState::AwaitFrame, Reply::Addr(paddr)) => {
                let t = CowPopulate { frame: paddr, ..self };
                let counted = incremented(frames, paddr);
                match self.backend.file {
                    Some(backing) => {
                        let (gap, len, offset) = filling(self.backend, backing, self.va);
                        t.asking(
                            CowPopulateState::AwaitFill,
                            counted,
                            Seq::empty(),
                            Request::FileRead {
                                paddr: (paddr + gap) as usize,
                                len: len as usize,
                                offset: offset as u64,
                            },
                        )
                    },
                    None => t.mapping(counted),
                }
            },
            (CowPopulateState::AwaitFill, Reply::Done) => self.mapping(frames),
            (_, Reply::Done) => self.advancing(frames, self.flags.contains(self.access_flags)),
            (_, Reply::Failed(e)) => self.ending(frames, Err(e)),
            (_, Reply::Fault(e)) => self.ending(frames, Err(e.into_error())),
            _ => arbitrary(),
        }
    }

    /// Turns to the address where it stands.
    fn enter(&mut self) -> (r: Turn<usize>)
        requires
            old(self).range.low(old(self).backend.size),
            old(self).backend.can_fill(old(self).range),
            old(self).va >= old(self).range.start,
            old(self).pages * PAGE_SIZE_4K <= old(self).va - old(self).range.start,
        ensures
            final(self).wf(),
            forall|frames: Map<usize, u8>|
                ({
                    let s = #[trigger] old(self).entering(frames);
                    &&& *final(self) == s.next
                    &&& s.frames == frames
                    &&& s.effects == Seq::<Effect>::empty()
                    &&& r == s.turn
                }),
    {
        if self.va < self.range.end {
            self.state = CowPopulateState::AwaitEntry;
            Turn::Ask(Request::Query { va: self.va })
        } else {
            self.state = CowPopulateState::Over;
            Turn::Finished(Ok(self.pages))
        }
    }

    /// Turns to the next page.
    fn advance(&mut self, satisfied: bool) -> (r: Turn<usize>)
        requires
            old(self).wf(),
            old(self).range.start <= old(self).va < old(self).range.end,
            old(self).pages * PAGE_SIZE_4K <= old(self).va - old(self).range.start,
        ensures
            final(self).wf(),
            forall|frames: Map<usize, u8>|
                ({
                    let s = #[trigger] old(self).advancing(frames, satisfied);
                    &&& *final(self) == s.next
                    &&& s.frames == frames
                    &&& s.effects == Seq::<Effect>::empty()
                    &&& r == s.turn
                }),
    {
        if satisfied {
            self.pages = self.pages + 1;
        }
        self.va = self.va + self.backend.size.bytes();
        self.enter()
    }

    /// Maps the new frame.
    fn map_frame(&mut self) -> (r: Turn<usize>)
        requires
            old(self).wf(),
            old(self).range.start <= old(self).va < old(self).range.end,
            old(self).pages * PAGE_SIZE_4K <= old(self).va - old(self).range.start,
        ensures
            final(self).wf(),
            forall|frames: Map<usize, u8>|
                ({
                    let s = #[trigger] old(self).mapping(frames);
                    &&& *final(self) == s.next
                    &&& s.frames == frames
                    &&& s.effects == Seq::<Effect>::empty()
                    &&& r == s.turn
                }),
    {
        self.state = CowPopulateState::AwaitMap;
        Turn::Ask(
            Request::MapPage {
                va: self.va,
                paddr: self.frame,
                size: self.backend.size,
                flags: self.flags,
            },
        )
    }

    /// Makes the page at the address where it stands writable. It is copied if
    /// its frame has another mapping.
    fn handle_cow_fault(&mut self, frames: &mut FrameTable, paddr: usize) -> (r: Turn<usize>)
        requires
            old(self).wf(),
            old(self).state is AwaitEntry,
            counts_ok(old(frames)@),
            count(old(frames)@, paddr) > 0,
        ensures
            final(self).wf(),
            counts_ok(final(frames)@),
            ({
                let s = if count(old(frames)@, paddr) == 1 {
                    old(self).asking(
                        CowPopulateState::AwaitProtect,
                        old(frames)@,
                        Seq::empty(),
                        Request::Protect { va: old(self).va, flags: old(self).flags },
                    )
                } else {
                    CowPopulate { frame: paddr, ..*old(self) }.asking(
                        CowPopulateState::AwaitCopy,
                        decremented(old(frames)@, paddr),
                        Seq::empty(),
                        Request::AllocFrame { zeroed: false, size: old(self).backend.size },
                    )
                };
                &&& *final(self) == s.next
                &&& final(frames)@ == s.frames
                &&& r == s.turn
            }),
    {
        let ghost m = frames@;
        if frames.dec_frame_ref(paddr) == 1 {
            frames.inc_frame_ref(paddr);
            assert(frames@ =~= m);
            self.state = CowPopulateState::AwaitProtect;
            Turn::Ask(Request::Protect { va: self.va, flags: self.flags })
        } else {
            self.frame = paddr;
            self.state = CowPopulateState::AwaitCopy;
            Turn::Ask(Request::AllocFrame { zeroed: false, size: self.backend.size })
        }
    }

    /// Uses the new frame for the page at the address where it stands.
    fn alloc_new_at(&mut self, frames: &mut FrameTable, paddr: usize) -> (r: Turn<usize>)
        requires
            old(self).wf(),
            old(self).state is AwaitFrame,
            old(self).awaits(old(frames)@, Reply::Addr(paddr)),
            counts_ok(old(frames)@),
        ensures
            final(self).wf(),
            counts_ok(final(frames)@),
            ({
                let s = old(self).after(old(frames)@, Reply::Addr(paddr));
                &&& *final(self) == s.next
                &&& final(frames)@ == s.frames
                &&& s.effects == Seq::<Effect>::empty()
                &&& r == s.turn
            }),
    {
        frames.inc_frame_ref(paddr);
        self.frame = paddr;
        match self.backend.file {
            Some(backing) => {
                self.state = CowPopulateState::AwaitFill;
                Turn::Ask(self.backend.fill(backing, self.va, paddr))
            },
            None => self.map_frame(),
        }
    }

    /// Goes on with the population.
    pub fn step(&mut self, frames: &mut FrameTable, reply: Reply, effects: &mut Vec<Effect>) -> (r:
        Turn<usize>)
        requires
            old(self).wf(),
            old(self).awaits(old(frames)@, reply),
            counts_ok(old(frames)@),
        ensures
            final(self).wf(),
            counts_ok(final(frames)@),
            ({
                let s = old(self).after(old(frames)@, reply);
                &&& *final(self) == s.next
                &&& final(frames)@ == s.frames
                &&& final(effects)@ == old(effects)@ + s.effects
                &&& r == s.turn
            }),
    {
        match (self.state, reply) {
            (CowPopulateState::Begin, _) => {
                if self.range.is_aligned_to(self.backend.size) {
                    self.enter()
                } else {
                    self.state = CowPopulateState::Over;
                    Turn::Finished(Err(AxError::InvalidInput))
                }
            },
            (CowPopulateState::AwaitEntry, Reply::Entry { paddr, flags, size }) => {
                if size == PageSize::Size2M && self.backend.size == PageSize::Size4K {
                    self.state = CowPopulateState::AwaitSplit;
                    Turn::Ask(Request::SplitHuge { va: self.va })
                } else if self.access_flags.writable() && !flags.writable() {
                    self.handle_cow_fault(frames, paddr)
                } else {
                    let satisfied: bool = flags.contains(self.access_flags);
                    self.advance(satisfied)
                }
            },
            (CowPopulateState::AwaitEntry, Reply::Fault(PagingError::NotMapped)) => {
                self.state = CowPopulateState::AwaitFrame;
                Turn::Ask(Request::AllocFrame { zeroed: true, size: self.backend.size })
            },
            (CowPopulateState::AwaitEntry, _) => {
                self.state = CowPopulateState::Over;
                Turn::Finished(Err(AxError::BadAddress))
            },
            (CowPopulateState::AwaitSplit, Reply::Done) => self.enter(),
            (CowPopulateState::AwaitCopy, Reply::Addr(paddr)) => {
                frames.inc_frame_ref(paddr);
                effects.push(
                    Effect::Copy { src: self.frame, dst: paddr, len: self.backend.size.bytes() },
                );
                self.state = CowPopulateState::AwaitRemap;
                Turn::Ask(Request::Remap { va: self.va, paddr, flags: self.flags })
            },
            (CowPopulateState::AwaitFrame, Reply::Addr(paddr)) => self.alloc_new_at(frames, paddr),
            (CowPopulateState::AwaitFill, Reply::Done) => self.map_frame(),
            (_, Reply::Done) => {
                let satisfied: bool = self.flags.contains(self.access_flags);
                self.advance(satisfied)
            },
            (_, Reply::Failed(e)) => {
                self.state = CowPopulateState::Over;
                Turn::Finished(Err(e))
            },
            (_, Reply::Fault(e)) => {
                self.state = CowPopulateState::Over;
                Turn::Finished(Err(e.into_error()))
            },
            _ => unreached(),
        }
    }
}

impl CowBackend {
    /// The population at its start.
    pub open spec fn populate_of(
        self,
        range: VirtAddrRange,
        flags: MappingFlags,
        access_flags: MappingFlags,
    ) -> CowPopulate {
        CowPopulate {
            backend: self,
            range,
            flags,
            access_flags,
            va: range.start,
            pages: 0,
            frame: 0,
            state: CowPopulateState::Begin,
        }
    }

    /// Populates a range with the rights `flags` so that its pages satisfy
    /// `access_flags`.
    pub fn populate(
        &self,
        range: VirtAddrRange,
        flags: MappingFlags,
        access_flags: MappingFlags,
    ) -> (r: CowPopulate)
        requires
            range.low(self.size),
            self.can_fill(range),
        ensures
            r == self.populate_of(range, flags, access_flags),
            r.wf(),
    {
        CowPopulate {
            backend: *self,
            range,
            flags,
            access_flags,
            va: range.start,
            pages: 0,
            frame: 0,
            state: CowPopulateState::Begin,
        }
    }
}

} // verus!
