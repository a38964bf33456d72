//! Turning a mapped file into huge pages where it is worth it.

use vstd::prelude::*;
use vstd::pervasive::unreached;
use crate::addr::{page_starts, pages_in, PageSize, VirtAddrRange, PAGE_SIZE_4K};
use crate::effect::{Effect, Reply, Request, Turn};
use crate::error::AxError;
use crate::fs::cache::{CacheView, CachedFileShared};
use crate::mm::cow_try::TryState;
use crate::mm::file::FileBackend;
use crate::mm::file_collapse::{FileCollapse, FileCollapseView};
use crate::mm::scan::{Scan, ScanView, Verdict};
use crate::mm::shared::CacheStep;

verus! {

/// An attempt to collapse a window of a mapped file: it is scanned first, and
/// collapsed if the scan passes.
#[derive(Debug)]
pub struct FileTry {
    pub range: VirtAddrRange,
    pub state: TryState,
    pub scan: Scan,
    pub collapse: FileCollapse,
}

/// What an attempt amounts to.
pub struct FileTryView {
    pub range: VirtAddrRange,
    pub state: TryState,
    pub scan: ScanView,
    pub collapse: FileCollapseView,
}

impl View for FileTry {
    type V = FileTryView;

    open spec fn view(&self) -> FileTryView {
        FileTryView {
            range: self.range,
            state: self.state,
            scan: self.scan@,
            collapse: self.collapse@,
        }
    }
}

impl FileTryView {
    pub open spec fn wf(self) -> bool {
        &&& self.scan.wf()
        &&& self.collapse.wf()
        &&& !(self.state is AwaitCollapse) ==> self.collapse.state is Begin
        &&& self.state is Begin ==> self.scan.at == 0
        &&& self.state is AwaitEntry ==> self.scan.at < self.scan.pages.len()
    }

    /// Whether the reply can be one to the last request.
    pub open spec fn awaits(self, cache: CacheView, reply: Reply) -> bool {
        match self.state {
            TryState::Begin => reply is Start,
            TryState::AwaitEntry => reply is Entry || reply is Fault,
            TryState::AwaitCollapse => self.collapse.awaits(cache, reply),
            TryState::Over => false,
        }
    }

    pub open spec fn ending(self, cache: CacheView, result: Result<bool, AxError>) -> CacheStep<
        FileTryView,
        bool,
    > {
        CacheStep {
            next: FileTryView { state: TryState::Over, ..self },
            cache,
            effects: Seq::empty(),
            turn: Turn::Finished(result),
        }
    }

    /// The attempt follows the scan.
    pub open spec fn following(self, cache: CacheView, scan: (ScanView, Verdict)) -> CacheStep<
        FileTryView,
        bool,
    > {
        let t = FileTryView { scan: scan.0, ..self };
        match scan.1 {
            Verdict::Look(va) => CacheStep {
                next: FileTryView { state: TryState::AwaitEntry, ..t },
                cache,
                effects: Seq::empty(),
                turn: Turn::Ask(Request::Query { va }),
            },
            Verdict::Refused => t.ending(cache, Ok(false)),
            Verdict::Passed => t.collapsing(t.collapse.after(cache, Reply::Start)),
        }
    }

    /// The attempt after a step of the collapse: it succeeds if the collapse
    /// mapped a huge page.
    pub open spec fn collapsing(self, s: CacheStep<FileCollapseView, bool>) -> CacheStep<
        FileTryView,
        bool,
    > {
        CacheStep {
            next: FileTryView { collapse: s.next, state: TryState::AwaitCollapse, ..self },
            cache: s.cache,
            effects: s.effects,
            turn: s.turn,
        }
    }

    /// What the step does.
    pub open spec fn after(self, cache: CacheView, reply: Reply) -> CacheStep<FileTryView, bool> {
        match self.state {
            TryState::Begin => if self.range.aligned_to(PageSize::Size4K) {
                self.following(
                    cache,
                    ScanView {
                        pages: page_starts(
                            self.range.start as int,
                            self.range.end as int,
                            PAGE_SIZE_4K as int,
                        ),
                        ..self.scan
                    }.looking(),
                )
            } else {
                self.ending(cache, Err(AxError::InvalidInput))
            },
            TryState::AwaitEntry => self.following(cache, self.scan.noting(reply, false)),
            TryState::AwaitCollapse => self.collapsing(self.collapse.after(cache, reply)),
            TryState::Over => arbitrary(),
        }
    }
}

impl FileTry {
    /// Follows the scan.
    fn follow(
        &mut self,
        shared: &mut CachedFileShared,
        verdict: Verdict,
        effects: &mut Vec<Effect>,
    ) -> (r: Turn<bool>)
        requires
            old(self)@.scan.wf(),
            old(self)@.collapse.wf(),
            old(self).collapse.state is Begin,
            verdict is Look ==> old(self)@.scan.at < old(self)@.scan.pages.len(),
            old(shared)@.wf(),
        ensures
            final(self)@.wf(),
            final(shared)@.wf(),
            ({
                let s = old(self)@.following(old(shared)@, (old(self)@.scan, verdict));
                &&& final(self)@ == s.next
                &&& final(shared)@ == s.cache
                &&& final(effects)@ == old(effects)@ + s.effects
                &&& r == s.turn
            }),
    {
        match verdict {
            Verdict::Look(va) => {
                self.state = TryState::AwaitEntry;
                Turn::Ask(Request::Query { va })
            },
            Verdict::Refused => {
                self.state = TryState::Over;
                Turn::Finished(Ok(false))
            },
            Verdict::Passed => self.step_collapse(shared, Reply::Start, effects),
        }
    }

    /// Takes note of a step of the collapse.
    fn step_collapse(
        &mut self,
        shared: &mut CachedFileShared,
        reply: Reply,
        effects: &mut Vec<Effect>,
    ) -> (r: Turn<bool>)
        requires
            old(self)@.scan.wf(),
            old(self)@.collapse.wf(),
            old(self)@.collapse.awaits(old(shared)@, reply),
            old(shared)@.wf(),
        ensures
            final(self)@.wf(),
            final(shared)@.wf(),
            ({
                let s = old(self)@.collapsing(old(self)@.collapse.after(old(shared)@, reply));
                &&& final(self)@ == s.next
                &&& final(shared)@ == s.cache
                &&& final(effects)@ == old(effects)@ + s.effects
                &&& r == s.turn
            }),
    {
        self.state = TryState::AwaitCollapse;
        self.collapse.step(shared, reply, effects)
    }

    /// Goes on with the attempt.
    pub fn step(
        &mut self,
        shared: &mut CachedFileShared,
        reply: Reply,
        effects: &mut Vec<Effect>,
    ) -> (r: Turn<bool>)
        requires
            old(self)@.wf(),
            old(self)@.awaits(old(shared)@, reply),
            old(shared)@.wf(),
        ensures
            final(self)@.wf(),
            final(shared)@.wf(),
            ({
                let s = old(self)@.after(old(shared)@, reply);
                &&& final(self)@ == s.next
                &&& final(shared)@ == s.cache
                &&& final(effects)@ == old(effects)@ + s.effects
                &&& r == s.turn
            }),
    {
        match self.state {
            TryState::Begin => match pages_in(self.range, PageSize::Size4K) {
                Ok(pages) => {
                    self.scan.pages = pages;
                    let verdict: Verdict = self.scan.look();
                    self.follow(shared, verdict, effects)
                },
                Err(e) => {
                    self.state = TryState::Over;
                    Turn::Finished(Err(e))
                },
            },
            TryState::AwaitEntry => {
                let verdict: Verdict = self.scan.note(reply, false);
                self.follow(shared, verdict, effects)
            },
            TryState::AwaitCollapse => self.step_collapse(shared, reply, effects),
            TryState::Over => unreached(),
        }
    }

    /// How many pages were looked at, in this window and before.
    pub fn pages_scanned(&self) -> (r: usize)
        ensures
            r == self@.scan.scanned,
    {
        self.scan.scanned
    }
}

impl FileBackend {
    /// Tries to collapse a window of the size of a huge page. It is refused if
    /// more than `max_ptes_none` pages are not there, or once `pages_to_scan`
    /// pages were looked at, `pages_scanned` of which before.
    pub fn try_collapse_page(
        &self,
        range: VirtAddrRange,
        max_ptes_none: usize,
        pages_scanned: usize,
        pages_to_scan: usize,
    ) -> (r: FileTry)
        requires
            self.inner.has(range),
        ensures
            r@ == (FileTryView {
                range,
                state: TryState::Begin,
                scan: ScanView {
                    pages: Seq::empty(),
                    at: 0,
                    none: 0,
                    shared: 0,
                    max_none: max_ptes_none,
                    max_shared: 0,
                    scanned: pages_scanned,
                    to_scan: pages_to_scan,
                },
                collapse: self.collapse_of(range, false),
            }),
            r@.wf(),
    {
        FileTry {
            range,
            state: TryState::Begin,
            scan: Scan::new(Vec::new(), max_ptes_none, 0, pages_scanned, pages_to_scan),
            collapse: self.collapse_page(range, false),
        }
    }
}

/// An attempt succeeds only when a huge page has just been mapped.
pub proof fn law_attempt_succeeds_with_a_huge_page(t: FileTryView, cache: CacheView, reply: Reply)
    requires
        t.wf(),
        t.awaits(cache, reply),
    ensures
        t.after(cache, reply).turn == Turn::<bool>::Finished(Ok(true)) <==> {
            &&& t.state is AwaitCollapse
            &&& t.collapse.state is AwaitRemap || t.collapse.state is AwaitReuse
            &&& reply is Done
        },
{
    reveal(FileCollapseView::after);
    reveal(FileCollapseView::faulting);
}

/// An attempt never looks at more pages than may be looked at.
pub proof fn law_attempt_stays_within_its_budget(t: FileTryView, cache: CacheView, reply: Reply)
    requires
        !(t.state is Over),
    ensures
        ({
            let next = t.after(cache, reply).next;
            &&& next.scan.to_scan == t.scan.to_scan
            &&& next.scan.scanned <= t.scan.to_scan || next.scan.scanned == t.scan.scanned
        }),
{
}

} // verus!
