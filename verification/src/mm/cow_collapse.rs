//! Turning private memory into a huge page.

use vstd::prelude::*;
use vstd::pervasive::unreached;
use crate::addr::{
    page_starts, pages_in, PageSize, VirtAddrRange, PAGE_SIZE_2M, PAGE_SIZE_4K, THP_NR_4K_PAGES,
    THP_PAGE_BYTES,
};
use crate::effect::{Effect, Reply, Request, Turn};
use crate::error::{AxError, PagingError};
use crate::flags::MappingFlags;
use crate::mm::cow::{CowBackend, FrameStep};
use crate::mm::cow_populate::{CowPopulate, CowPopulateState};
use crate::mm::frames::{
    all_incremented, block_has_room, counts_ok, list_decremented, list_dropped, FrameTable,
};

verus! {

/// Where a collapse stands.
#[derive(Debug, Clone, Copy, PartialEq, Eq, Structural)]
pub enum CowCollapseState {
    Begin,
    AwaitFrame,
    AwaitEntry,
    AwaitPopulate,
    AwaitFaulted,
    AwaitRemap,
    Over,
}

/// The collapse of a window of private memory into one huge page. The small
/// pages are copied into a new huge frame, the missing ones after they were
/// brought in if that is wanted, and the huge frame is mapped in their place.
#[derive(Debug)]
pub struct CowCollapse {
    pub backend: CowBackend,
    pub range: VirtAddrRange,
    pub fault_in: bool,
    pub state: CowCollapseState,
    pub new_pa: usize,
    /// The rights of the first page that is there.
    pub flags: Option<MappingFlags>,
    /// The pages of the window.
    pub pages: Vec<usize>,
    /// The pages that are to be brought in.
    pub faults: Vec<usize>,
    /// The frames that were copied.
    pub old_pages: Vec<usize>,
    /// The page, or the page to be brought in, that is being worked on.
    pub at: usize,
    pub populate: CowPopulate,
}

/// What a collapse amounts to.
pub struct CowCollapseView {
    pub backend: CowBackend,
    pub range: VirtAddrRange,
    pub fault_in: bool,
    pub state: CowCollapseState,
    pub new_pa: usize,
    pub flags: Option<MappingFlags>,
    pub pages: Seq<usize>,
    pub faults: Seq<usize>,
    pub old_pages: Seq<usize>,
    pub at: nat,
    pub populate: CowPopulate,
}

impl View for CowCollapse {
    type V = CowCollapseView;

    open spec fn view(&self) -> CowCollapseView {
        CowCollapseView {
            backend: self.backend,
            range: self.range,
            fault_in: self.fault_in,
            state: self.state,
            new_pa: self.new_pa,
            flags: self.flags,
            pages: self.pages@,
            faults: self.faults@,
            old_pages: self.old_pages@,
            at: self.at as nat,
            populate: self.populate,
        }
    }
}

impl CowCollapseView {
    /// Whether the window is one, and can be brought in where that is to be done.
    pub open spec fn window_ok(self) -> bool {
        &&& self.range.end - self.range.start == THP_PAGE_BYTES
        &&& self.fault_in ==> self.range.low(self.backend.size)
        &&& self.fault_in ==> self.backend.can_fill(self.range)
    }

    pub open spec fn wf(self) -> bool {
        &&& self.window_ok()
        &&& match self.state {
            CowCollapseState::Begin => {
                &&& self.flags is None
                &&& self.faults.len() == 0
                &&& self.old_pages.len() == 0
            },
            CowCollapseState::AwaitFrame => {
                &&& self.flags is None
                &&& self.faults.len() == 0
                &&& self.old_pages.len() == 0
            },
            CowCollapseState::AwaitEntry => self.ready() && self.at < self.pages.len(),
            CowCollapseState::AwaitPopulate => {
                &&& self.ready()
                &&& self.flags is Some
                &&& self.at < self.faults.len()
                &&& self.populate.wf()
            },
            CowCollapseState::AwaitFaulted => {
                &&& self.ready()
                &&& self.flags is Some
                &&& self.at < self.faults.len()
            },
            CowCollapseState::AwaitRemap => self.ready() && self.flags is Some,
            CowCollapseState::Over => true,
        }
    }

    /// Whether the new frame lies in the address space and the listed pages in
    /// the window.
    pub open spec fn ready(self) -> bool {
        &&& self.new_pa + PAGE_SIZE_2M <= usize::MAX
        &&& self.pages == page_starts(
            self.range.start as int,
            self.range.end as int,
            PAGE_SIZE_4K as int,
        )
        &&& self.range.aligned_to(PageSize::Size4K)
        &&& self.faults.len() > 0 ==> self.fault_in
        &&& forall|i: int| 0 <= i < self.faults.len() ==> self.pages.contains(#[trigger] self.faults[i])
    }

    /// Whether the reply can be one to the last request: the frames can be
    /// counted.
    pub open spec fn awaits(self, frames: Map<usize, u8>, reply: Reply) -> bool {
        match self.state {
            CowCollapseState::Begin => reply is Start,
            CowCollapseState::AwaitFrame => match reply {
                Reply::Addr(paddr) => paddr + PAGE_SIZE_2M <= usize::MAX,
                _ => reply is Failed,
            },
            CowCollapseState::AwaitEntry => reply is Entry || reply is Fault,
            CowCollapseState::AwaitPopulate => self.populate.awaits(frames, reply),
            CowCollapseState::AwaitFaulted => reply is Entry || reply is Fault,
            CowCollapseState::AwaitRemap => match reply {
                Reply::Done => block_has_room(frames, self.new_pa),
                _ => reply is Fault,
            },
            CowCollapseState::Over => false,
        }
    }

    pub open spec fn asking(
        self,
        state: CowCollapseState,
        frames: Map<usize, u8>,
        effects: Seq<Effect>,
        request: Request,
    ) -> FrameStep<CowCollapseView, ()> {
        FrameStep {
            next: CowCollapseView { state, ..self },
            frames,
            effects,
            turn: Turn::Ask(request),
        }
    }

    pub open spec fn ending(
        self,
        frames: Map<usize, u8>,
        effects: Seq<Effect>,
        result: Result<(), AxError>,
    ) -> FrameStep<CowCollapseView, ()> {
        FrameStep {
            next: CowCollapseView { state: CowCollapseState::Over, ..self },
            frames,
            effects,
            turn: Turn::Finished(result),
        }
    }

    /// The new huge frame, given back.
    pub open spec fn giving_back(self) -> Seq<Effect> {
        seq![Effect::FreeFrame { paddr: self.new_pa, size: PageSize::Size2M }]
    }

    /// The copy of the page at `va` into its place in the new frame.
    pub open spec fn copying(self, va: usize, old_pa: usize) -> Effect {
        Effect::Copy {
            src: old_pa,
            dst: (self.new_pa + (va - self.range.start)) as usize,
            len: PAGE_SIZE_4K,
        }
    }

    /// The collapse turns to the page where it stands, or, behind the last, to
    /// the missing pages.
    pub open spec fn scanning(self, frames: Map<usize, u8>, effects: Seq<Effect>) -> FrameStep<
        CowCollapseView,
        (),
    > {
        if self.at < self.pages.len() {
            self.asking(
                CowCollapseState::AwaitEntry,
                frames,
                effects,
                Request::Query { va: self.pages[self.at as int] },
            )
        } else if self.flags is None {
            self.ending(frames, effects + self.giving_back(), Err(AxError::InvalidInput))
        } else {
            CowCollapseView { at: 0, ..self }.faulting(frames, effects)
        }
    }

    /// The population of the missing page where the collapse stands.
    pub open spec fn bringing(self) -> CowPopulate {
        let va = self.faults[self.at as int];
        self.backend.populate_of(
            VirtAddrRange { start: va, end: (va + PAGE_SIZE_4K) as usize },
            self.flags.unwrap(),
            self.flags.unwrap().read_only(),
        )
    }

    /// The collapse turns to the missing page where it stands, or, behind the
    /// last, to the mapping of the huge frame.
    pub open spec fn faulting(self, frames: Map<usize, u8>, effects: Seq<Effect>) -> FrameStep<
        CowCollapseView,
        (),
    > {
        if self.at < self.faults.len() {
            self.populating(self.bringing().after(frames, Reply::Start), effects)
        } else {
            self.asking(
                CowCollapseState::AwaitRemap,
                frames,
                effects,
                Request::RemapHuge {
                    va: self.range.start,
                    paddr: self.new_pa,
                    flags: self.flags.unwrap(),
                },
            )
        }
    }

    /// The collapse after a step of a population.
    pub open spec fn populating(self, s: FrameStep<CowPopulate, usize>, effects: Seq<Effect>) -> FrameStep<
        CowCollapseView,
        (),
    > {
        let t = CowCollapseView { populate: s.next, ..self };
        match s.turn {
            Turn::Ask(request) => t.asking(
                CowCollapseState::AwaitPopulate,
                s.frames,
                effects + s.effects,
                request,
            ),
            Turn::Finished(Ok(_)) => t.asking(
                CowCollapseState::AwaitFaulted,
                s.frames,
                effects + s.effects,
                Request::Query { va: self.faults[self.at as int] },
            ),
            Turn::Finished(Err(_)) => t.ending(
                s.frames,
                effects + s.effects,
                Err(AxError::BadAddress),
            ),
        }
    }

    /// What the step does.
    #[verifier::opaque]
    pub open spec fn after(self, frames: Map<usize, u8>, reply: Reply) -> FrameStep<
        CowCollapseView,
        (),
    > {
        match (self.state, reply) {
            (CowCollapseState::Begin, _) => self.asking(
                CowCollapseState::AwaitFrame,
                frames,
                Seq::empty(),
                Request::AllocFrame { zeroed: true, size: PageSize::Size2M },
            ),
            (CowCollapseState::AwaitPopulate, _) => self.populating(
                self.populate.after(frames, reply),
                Seq::empty(),
            ),
            (CowCollapseState::AwaitFrame, Reply::Addr(paddr)) => if self.range.aligned_to(
                PageSize::Size4K,
            ) {
                CowCollapseView {
                    new_pa: paddr,
                    pages: page_starts(
                        self.range.start as int,
                        self.range.end as int,
                        PAGE_SIZE_4K as int,
                    ),
                    at: 0,
                    ..self
                }.scanning(frames, Seq::empty())
            } else {
                CowCollapseView { new_pa: paddr, ..self }.ending(
                    frames,
                    Seq::empty(),
                    Err(AxError::InvalidInput),
                )
            },
            (CowCollapseState::AwaitEntry, Reply::Entry { paddr, flags, size: _ }) => CowCollapseView {
                flags: if self.flags is None {
                    Some(flags)
                } else {
                    self.flags
                },
                old_pages: self.old_pages.push(paddr),
                at: self.at + 1,
                ..self
            }.scanning(frames, seq![self.copying(self.pages[self.at as int], paddr)]),
            (CowCollapseState::AwaitEntry, Reply::Fault(PagingError::NotMapped)) => CowCollapseView {
                faults: if self.fault_in {
                    self.faults.push(self.pages[self.at as int])
                } else {
                    self.faults
                },
                at: self.at + 1,
                ..self
            }.scanning(frames, Seq::empty()),
            (CowCollapseState::AwaitEntry, _) => self.ending(
                frames,
                Seq::empty(),
                Err(AxError::BadAddress),
            ),
            (CowCollapseState::AwaitFaulted, Reply::Entry { paddr, flags: _, size: _ }) => CowCollapseView {
                old_pages: self.old_pages.push(paddr),
                at: self.at + 1,
                ..self
            }.faulting(frames, seq![self.copying(self.faults[self.at as int], paddr)]),
            (CowCollapseState::AwaitRemap, Reply::Done) => {
                let counted = all_incremented(frames, self.new_pa, THP_NR_4K_PAGES as nat);
                self.ending(
                    list_decremented(counted, self.old_pages),
                    list_dropped(counted, self.old_pages),
                    Ok(()),
                )
            },
            (CowCollapseState::AwaitRemap, _) => self.ending(
                frames,
                self.giving_back(),
                Err(AxError::BadAddress),
            ),
            (_, Reply::Failed(e)) => self.ending(frames, Seq::empty(), Err(e)),
            (_, Reply::Fault(e)) => self.ending(frames, Seq::empty(), Err(e.into_error())),
            _ => arbitrary(),
        }
    }
}

impl CowCollapse {
    /// Turns to the page where it stands.
    fn scan(&mut self, frames: &mut FrameTable, effects: &mut Vec<Effect>) -> (r: Turn<()>)
        requires
            old(self)@.window_ok(),
            old(self)@.ready(),
            counts_ok(old(frames)@),
        ensures
            final(self)@.wf(),
            counts_ok(final(frames)@),
            ({
                let s = old(self)@.scanning(old(frames)@, Seq::empty());
                &&& final(self)@ == s.next
                &&& final(frames)@ == s.frames
                &&& final(effects)@ == old(effects)@ + s.effects
                &&& r == s.turn
            }),
    {
        if self.at < self.pages.len() {
            self.state = CowCollapseState::AwaitEntry;
            Turn::Ask(Request::Query { va: self.pages[self.at] })
        } else if self.flags.is_none() {
            effects.push(Effect::FreeFrame { paddr: self.new_pa, size: PageSize::Size2M });
            self.state = CowCollapseState::Over;
            Turn::Finished(Err(AxError::InvalidInput))
        } else {
            self.at = 0;
            self.fault(frames, effects)
        }
    }

    /// Turns to the missing page where it stands.
    fn fault(&mut self, frames: &mut FrameTable, effects: &mut Vec<Effect>) -> (r: Turn<()>)
        requires
            old(self)@.window_ok(),
            old(self)@.ready(),
            old(self).flags is Some,
            counts_ok(old(frames)@),
        ensures
            final(self)@.wf(),
            counts_ok(final(frames)@),
            ({
                let s = old(self)@.faulting(old(frames)@, Seq::empty());
                &&& final(self)@ == s.next
                &&& final(frames)@ == s.frames
                &&& final(effects)@ == old(effects)@ + s.effects
                &&& r == s.turn
            }),
    {
        match self.flags {
            Some(flags) => {
                if self.at < self.faults.len() {
                    let va: usize = self.faults[self.at];
                    proof {
                        assert(self.pages@.contains(self.faults@[self.at as int]));
                    }
                    self.populate = self.backend.populate(
                        VirtAddrRange::from_start_size(va, PAGE_SIZE_4K),
                        flags,
                        flags.read_only(),
                    );
                    self.step_populate(frames, Reply::Start, effects)
                } else {
                    self.state = CowCollapseState::AwaitRemap;
                    Turn::Ask(
                        Request::RemapHuge { va: self.range.start, paddr: self.new_pa, flags },
                    )
                }
            },
            None => unreached(),
        }
    }

    /// Takes note of a step of a population.
    fn step_populate(&mut self, frames: &mut FrameTable, reply: Reply, effects: &mut Vec<Effect>) -> (r:
        Turn<()>)
        requires
            old(self)@.window_ok(),
            old(self)@.ready(),
            old(self).flags is Some,
            old(self).at < old(self).faults@.len(),
            old(self).populate.wf(),
            old(self).populate.awaits(old(frames)@, reply),
            counts_ok(old(frames)@),
        ensures
            final(self)@.wf(),
            counts_ok(final(frames)@),
            ({
                let s = old(self)@.populating(
                    old(self).populate.after(old(frames)@, reply),
                    Seq::empty(),
                );
                &&& final(self)@ == s.next
                &&& final(frames)@ == s.frames
                &&& final(effects)@ == old(effects)@ + s.effects
                &&& r == s.turn
            }),
    {
        match self.populate.step(frames, reply, effects) {
            Turn::Ask(request) => {
                self.state = CowCollapseState::AwaitPopulate;
                Turn::Ask(request)
            },
            Turn::Finished(Ok(_)) => {
                self.state = CowCollapseState::AwaitFaulted;
                Turn::Ask(Request::Query { va: self.faults[self.at] })
            },
            Turn::Finished(Err(_)) => {
                self.state = CowCollapseState::Over;
                Turn::Finished(Err(AxError::BadAddress))
            },
        }
    }

    /// Goes on with the collapse.
    #[verifier::rlimit(40)]
    pub fn step(&mut self, frames: &mut FrameTable, reply: Reply, effects: &mut Vec<Effect>) -> (r:
        Turn<()>)
        requires
            old(self)@.wf(),
            old(self)@.awaits(old(frames)@, reply),
            counts_ok(old(frames)@),
        ensures
            final(self)@.wf(),
            counts_ok(final(frames)@),
            ({
                let s = old(self)@.after(old(frames)@, reply);
                &&& final(self)@ == s.next
                &&& final(frames)@ == s.frames
                &&& final(effects)@ == old(effects)@ + s.effects
                &&& r == s.turn
            }),
    {
        proof {
            reveal(CowCollapseView::after);
        }
        match (self.state, reply) {
            (CowCollapseState::Begin, _) => {
                self.state = CowCollapseState::AwaitFrame;
                Turn::Ask(Request::AllocFrame { zeroed: true, size: PageSize::Size2M })
            },
            (CowCollapseState::AwaitPopulate, _) => self.step_populate(frames, reply, effects),
            (CowCollapseState::AwaitFrame, Reply::Addr(paddr)) => {
                self.new_pa = paddr;
                match pages_in(self.range, PageSize::Size4K) {
                    Ok(pages) => {
                        self.pages = pages;
                        self.at = 0;
                        self.scan(frames, effects)
                    },
                    Err(e) => {
                        self.state = CowCollapseState::Over;
                        Turn::Finished(Err(e))
                    },
                }
            },
            (CowCollapseState::AwaitEntry, Reply::Entry { paddr, flags, size: _ }) => {
                if self.flags.is_none() {
                    self.flags = Some(flags);
                }
                let page_va: usize = self.pages[self.at];
                let offset: usize = page_va - self.range.start;
                effects.push(
                    Effect::Copy { src: paddr, dst: self.new_pa + offset, len: PAGE_SIZE_4K },
                );
                self.old_pages.push(paddr);
                self.at = self.at + 1;
                self.scan(frames, effects)
            },
            (CowCollapseState::AwaitEntry, Reply::Fault(PagingError::NotMapped)) => {
                if self.fault_in {
                    let ghost t = self@;
                    self.faults.push(self.pages[self.at]);
                    proof {
                        assert forall|i: int| 0 <= i < self.faults@.len() implies self.pages@.contains(
                            #[trigger] self.faults@[i],
                        ) by {
                            if i < t.faults.len() {
                                assert(t.pages.contains(t.faults[i]));
                            } else {
                                assert(t.pages[t.at as int] == self.faults@[i]);
                            }
                        }
                    }
                }
                self.at = self.at + 1;
                self.scan(frames, effects)
            },
            (CowCollapseState::AwaitEntry, _) => {
                self.state = CowCollapseState::Over;
                Turn::Finished(Err(AxError::BadAddress))
            },
            (CowCollapseState::AwaitFaulted, Reply::Entry { paddr, flags: _, size: _ }) => {
                let page_va: usize = self.faults[self.at];
                proof {
                    assert(self.pages@.contains(self.faults@[self.at as int]));
                    assert(self.faults.len() == self.faults@.len());
                }
                let offset: usize = page_va - self.range.start;
                effects.push(
                    Effect::Copy { src: paddr, dst: self.new_pa + offset, len: PAGE_SIZE_4K },
                );
                self.old_pages.push(paddr);
                self.at = self.at + 1;
                self.fault(frames, effects)
            },
            (CowCollapseState::AwaitRemap, Reply::Done) => {
                frames.inc_block(self.new_pa);
                frames.drop_list(&self.old_pages, effects);
                self.state = CowCollapseState::Over;
                Turn::Finished(Ok(()))
            },
            (CowCollapseState::AwaitRemap, _) => {
                effects.push(Effect::FreeFrame { paddr: self.new_pa, size: PageSize::Size2M });
                self.state = CowCollapseState::Over;
                Turn::Finished(Err(AxError::BadAddress))
            },
            (_, Reply::Failed(e)) => {
                self.state = CowCollapseState::Over;
                Turn::Finished(Err(e))
            },
            (_, Reply::Fault(e)) => {
                self.state = CowCollapseState::Over;
                Turn::Finished(Err(e.into_error()))
            },
            _ => unreached(),
        }
    }
}

impl CowBackend {
    /// The collapse at its start.
    pub open spec fn collapse_of(self, range: VirtAddrRange, fault_in: bool) -> CowCollapseView {
        let none = MappingFlags { bits: 0 };
        CowCollapseView {
            backend: self,
            range,
            fault_in,
            state: CowCollapseState::Begin,
            new_pa: 0,
            flags: None,
            pages: Seq::empty(),
            faults: Seq::empty(),
            old_pages: Seq::empty(),
            at: 0,
            populate: self.populate_of(range, none, none),
        }
    }

    /// Collapses a window of the size of a huge page. With `fault_in` the pages
    /// that are not there are brought in.
    pub fn collapse_page(&self, range: VirtAddrRange, fault_in: bool) -> (r: CowCollapse)
        requires
            range.end - range.start == THP_PAGE_BYTES,
            fault_in ==> range.low(self.size),
            fault_in ==> self.can_fill(range),
        ensures
            r@ == self.collapse_of(range, fault_in),
            r@.wf(),
    {
        let none: MappingFlags = MappingFlags::of(0);
        CowCollapse {
            backend: *self,
            range,
            fault_in,
            state: CowCollapseState::Begin,
            new_pa: 0,
            flags: None,
            pages: Vec::new(),
            faults: Vec::new(),
            old_pages: Vec::new(),
            at: 0,
            populate: CowPopulate {
                backend: *self,
                range,
                flags: none,
                access_flags: none,
                va: range.start,
                pages: 0,
                frame: 0,
                state: CowPopulateState::Begin,
            },
        }
    }
}

} // verus!
