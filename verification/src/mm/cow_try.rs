//! Turning private memory into a huge page where it is worth it.

use vstd::prelude::*;
use vstd::pervasive::unreached;
use crate::addr::{page_starts, pages_in, PageSize, VirtAddrRange, PAGE_SIZE_4K, THP_PAGE_BYTES};
use crate::effect::{Effect, Reply, Request, Turn};
use crate::error::AxError;
use crate::mm::cow::{CowBackend, FrameStep};
use crate::mm::cow_collapse::{CowCollapse, CowCollapseView};
use crate::mm::frames::{count, counts_ok, FrameTable};
use crate::mm::scan::{Scan, ScanView, Verdict};

verus! {

/// Where an attempt stands.
#[derive(Debug, Clone, Copy, PartialEq, Eq, Structural)]
pub enum TryState {
    Begin,
    AwaitEntry,
    AwaitCollapse,
    Over,
}

/// An attempt to collapse a window of private memory: it is scanned first, and
/// collapsed if the scan passes.
#[derive(Debug)]
pub struct CowTry {
    pub range: VirtAddrRange,
    pub state: TryState,
    pub scan: Scan,
    pub collapse: CowCollapse,
}

/// What an attempt amounts to.
pub struct CowTryView {
    pub range: VirtAddrRange,
    pub state: TryState,
    pub scan: ScanView,
    pub collapse: CowCollapseView,
}

impl View for CowTry {
    type V = CowTryView;

    open spec fn view(&self) -> CowTryView {
        CowTryView {
            range: self.range,
            state: self.state,
            scan: self.scan@,
            collapse: self.collapse@,
        }
    }
}

impl CowTryView {
    pub open spec fn wf(self) -> bool {
        &&& self.scan.wf()
        &&& self.collapse.wf()
        &&& !(self.state is AwaitCollapse) ==> self.collapse.state is Begin
        &&& self.state is Begin ==> self.scan.at == 0
        &&& self.state is AwaitEntry ==> self.scan.at < self.scan.pages.len()
    }

    /// Whether the reply can be one to the last request.
    pub open spec fn awaits(self, frames: Map<usize, u8>, reply: Reply) -> bool {
        match self.state {
            TryState::Begin => reply is Start,
            TryState::AwaitEntry => reply is Entry || reply is Fault,
            TryState::AwaitCollapse => self.collapse.awaits(frames, reply),
            TryState::Over => false,
        }
    }

    pub open spec fn ending(self, frames: Map<usize, u8>, result: Result<bool, AxError>) -> FrameStep<
        CowTryView,
        bool,
    > {
        FrameStep {
            next: CowTryView { state: TryState::Over, ..self },
            frames,
            effects: Seq::empty(),
            turn: Turn::Finished(result),
        }
    }

    /// The attempt follows the scan.
    pub open spec fn following(self, frames: Map<usize, u8>, scan: (ScanView, Verdict)) -> FrameStep<
        CowTryView,
        bool,
    > {
        let t = CowTryView { scan: scan.0, ..self };
        match scan.1 {
            Verdict::Look(va) => FrameStep {
                next: CowTryView { state: TryState::AwaitEntry, ..t },
                frames,
                effects: Seq::empty(),
                turn: Turn::Ask(Request::Query { va }),
            },
            Verdict::Refused => t.ending(frames, Ok(false)),
            Verdict::Passed => t.collapsing(t.collapse.after(frames, Reply::Start)),
        }
    }

    /// The attempt after a step of the collapse.
    pub open spec fn collapsing(self, s: FrameStep<CowCollapseView, ()>) -> FrameStep<
        CowTryView,
        bool,
    > {
        FrameStep {
            next: CowTryView { collapse: s.next, state: TryState::AwaitCollapse, ..self },
            frames: s.frames,
            effects: s.effects,
            turn: match s.turn {
                Turn::Ask(request) => Turn::Ask(request),
                Turn::Finished(Ok(_)) => Turn::Finished(Ok(true)),
                Turn::Finished(Err(e)) => Turn::Finished(Err(e)),
            },
        }
    }

    /// What the step does.
    pub open spec fn after(self, frames: Map<usize, u8>, reply: Reply) -> FrameStep<CowTryView, bool> {
        match self.state {
            TryState::Begin => if self.range.aligned_to(PageSize::Size4K) {
                self.following(
                    frames,
                    ScanView {
                        pages: page_starts(
                            self.range.start as int,
                            self.range.end as int,
                            PAGE_SIZE_4K as int,
                        ),
                        ..self.scan
                    }.looking(),
                )
            } else {
                self.ending(frames, Err(AxError::InvalidInput))
            },
            TryState::AwaitEntry => self.following(
                frames,
                self.scan.noting(
                    reply,
                    match reply {
                        Reply::Entry { paddr, .. } => count(frames, paddr) > 1,
                        _ => false,
                    },
                ),
            ),
            TryState::AwaitCollapse => self.collapsing(self.collapse.after(frames, reply)),
            TryState::Over => arbitrary(),
        }
    }
}

impl CowTry {
    /// Follows the scan.
    fn follow(&mut self, frames: &mut FrameTable, verdict: Verdict, effects: &mut Vec<Effect>) -> (r:
        Turn<bool>)
        requires
            old(self)@.scan.wf(),
            old(self)@.collapse.wf(),
            old(self).collapse.state is Begin,
            verdict is Look ==> old(self)@.scan.at < old(self)@.scan.pages.len(),
            counts_ok(old(frames)@),
        ensures
            final(self)@.wf(),
            counts_ok(final(frames)@),
            ({
                let s = old(self)@.following(old(frames)@, (old(self)@.scan, verdict));
                &&& final(self)@ == s.next
                &&& final(frames)@ == s.frames
                &&& final(effects)@ == old(effects)@ + s.effects
                &&& r == s.turn
            }),
    {
        match verdict {
            Verdict::Look(va) => {
                self.state = TryState::AwaitEntry;
                Turn::Ask(Request::Query { va })
            },
            Verdict::Refused => {
                self.state = TryState::Over;
                Turn::Finished(Ok(false))
            },
            Verdict::Passed => self.step_collapse(frames, Reply::Start, effects),
        }
    }

    /// Takes note of a step of the collapse.
    fn step_collapse(&mut self, frames: &mut FrameTable, reply: Reply, effects: &mut Vec<Effect>) -> (r:
        Turn<bool>)
        requires
            old(self)@.scan.wf(),
            old(self)@.collapse.wf(),
            old(self)@.collapse.awaits(old(frames)@, reply),
            counts_ok(old(frames)@),
        ensures
            final(self)@.wf(),
            counts_ok(final(frames)@),
            ({
                let s = old(self)@.collapsing(old(self)@.collapse.after(old(frames)@, reply));
                &&& final(self)@ == s.next
                &&& final(frames)@ == s.frames
                &&& final(effects)@ == old(effects)@ + s.effects
                &&& r == s.turn
            }),
    {
        self.state = TryState::AwaitCollapse;
        match self.collapse.step(frames, reply, effects) {
            Turn::Ask(request) => Turn::Ask(request),
            Turn::Finished(Ok(_)) => Turn::Finished(Ok(true)),
            Turn::Finished(Err(e)) => Turn::Finished(Err(e)),
        }
    }

    /// Goes on with the attempt.
    pub fn step(&mut self, frames: &mut FrameTable, reply: Reply, effects: &mut Vec<Effect>) -> (r:
        Turn<bool>)
        requires
            old(self)@.wf(),
            old(self)@.awaits(old(frames)@, reply),
            counts_ok(old(frames)@),
        ensures
            final(self)@.wf(),
            counts_ok(final(frames)@),
            ({
                let s = old(self)@.after(old(frames)@, reply);
                &&& final(self)@ == s.next
                &&& final(frames)@ == s.frames
                &&& final(effects)@ == old(effects)@ + s.effects
                &&& r == s.turn
            }),
    {
        match self.state {
            TryState::Begin => match pages_in(self.range, PageSize::Size4K) {
                Ok(pages) => {
                    self.scan.pages = pages;
                    let verdict: Verdict = self.scan.look();
                    self.follow(frames, verdict, effects)
                },
                Err(e) => {
                    self.state = TryState::Over;
                    Turn::Finished(Err(e))
                },
            },
            TryState::AwaitEntry => {
                let shared_frame: bool = match reply {
                    Reply::Entry { paddr, .. } => frames.frame_ref_count(paddr) > 1,
                    _ => false,
                };
                let verdict: Verdict = self.scan.note(reply, shared_frame);
                self.follow(frames, verdict, effects)
            },
            TryState::AwaitCollapse => self.step_collapse(frames, reply, effects),
            TryState::Over => unreached(),
        }
    }

    /// How many pages were looked at, in this window and before.
    pub fn pages_scanned(&self) -> (r: usize)
        ensures
            r == self@.scan.scanned,
    {
        self.scan.scanned
    }
}

impl CowBackend {
    /// Tries to collapse a window of the size of a huge page. It is refused if
    /// more than `max_ptes_none` pages are not there, if the frames of more than
    /// `max_ptes_shared` pages are shared, or once `pages_to_scan` pages were
    /// looked at, `pages_scanned` of which before.
    pub fn try_collapse_page(
        &self,
        range: VirtAddrRange,
        max_ptes_none: usize,
        max_ptes_shared: usize,
        pages_scanned: usize,
        pages_to_scan: usize,
    ) -> (r: CowTry)
        requires
            range.end - range.start == THP_PAGE_BYTES,
        ensures
            r@ == (CowTryView {
                range,
                state: TryState::Begin,
                scan: ScanView {
                    pages: Seq::empty(),
                    at: 0,
                    none: 0,
                    shared: 0,
                    max_none: max_ptes_none,
                    max_shared: max_ptes_shared,
                    scanned: pages_scanned,
                    to_scan: pages_to_scan,
                },
                collapse: self.collapse_of(range, false),
            }),
            r@.wf(),
    {
        CowTry {
            range,
            state: TryState::Begin,
            scan: Scan::new(
                Vec::new(),
                max_ptes_none,
                max_ptes_shared,
                pages_scanned,
                pages_to_scan,
            ),
            collapse: self.collapse_page(range, false),
        }
    }
}

/// An attempt succeeds only when a huge page has just been mapped.
pub proof fn law_attempt_succeeds_with_a_huge_page(t: CowTryView, frames: Map<usize, u8>, reply: Reply)
    requires
        t.wf(),
        t.awaits(frames, reply),
    ensures
        t.after(frames, reply).turn == Turn::<bool>::Finished(Ok(true)) <==> {
            &&& t.state is AwaitCollapse
            &&& t.collapse.state is AwaitRemap
            &&& reply is Done
        },
{
    reveal(CowCollapseView::after);
}

/// An attempt never looks at more pages than may be looked at.
pub proof fn law_attempt_stays_within_its_budget(t: CowTryView, frames: Map<usize, u8>, reply: Reply)
    requires
        !(t.state is Over),
    ensures
        ({
            let next = t.after(frames, reply).next;
            &&& next.scan.to_scan == t.scan.to_scan
            &&& next.scan.scanned <= t.scan.to_scan || next.scan.scanned == t.scan.scanned
        }),
{
}

} // verus!
