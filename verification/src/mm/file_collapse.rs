//! Turning a mapped file into huge pages.

use vstd::prelude::*;
use vstd::pervasive::unreached;
use crate::addr::{
    lemma_page_starts, page_starts, pages_in, PageSize, VirtAddrRange, PAGE_SIZE_2M, PAGE_SIZE_4K,
    THP_NR_4K_PAGES,
};
use crate::effect::{Effect, Reply, Request, Turn};
use crate::error::{AxError, PagingError};
use crate::flags::MappingFlags;
use crate::fs::cache::{CacheView, CachedFileShared};
use crate::fs::chunks::{chunk_from, chunk_order};
use crate::fs::merge::{Merge, MergeState, MergeStep};
use crate::fs::page::PageCache;
use crate::fs::recency::{lookup, page_map, touched};
use crate::fs::split::lemma_chunk_found;
use crate::mm::file::FileBackend;
use crate::mm::file_populate::{FilePopulate, FilePopulateView};
use crate::mm::shared::CacheStep;

verus! {

/// Where a collapse stands.
#[derive(Debug, Clone, Copy, PartialEq, Eq, Structural)]
pub enum FileCollapseState {
    Begin,
    AwaitEntry,
    AwaitReuse,
    Populating,
    Merging,
    AwaitRemap,
    Over,
}

/// The collapse of a window of a mapped file into one huge page. A cached huge
/// page at the right place is mapped as it is; else the cached pages are merged,
/// after the missing ones were brought in if that is wanted. Nothing is done if
/// a cached huge page lies across an end of the window, or if no page of the
/// window is there. The result tells whether a huge page was mapped.
#[derive(Debug)]
pub struct FileCollapse {
    pub backend: FileBackend,
    pub range: VirtAddrRange,
    pub fault_in: bool,
    pub state: FileCollapseState,
    pub pages: Vec<usize>,
    pub faults: Vec<usize>,
    /// The page, or the page to be brought in, that is being worked on.
    pub at: usize,
    pub flags: Option<MappingFlags>,
    pub populate: FilePopulate,
    /// The pages that left the cache: they are to be unmapped at the end.
    pub to_be_evicted: Vec<u32>,
    pub merge: Merge,
}

/// What a collapse amounts to.
pub struct FileCollapseView {
    pub backend: FileBackend,
    pub range: VirtAddrRange,
    pub fault_in: bool,
    pub state: FileCollapseState,
    pub pages: Seq<usize>,
    pub faults: Seq<usize>,
    pub at: nat,
    pub flags: Option<MappingFlags>,
    pub populate: FilePopulateView,
    pub to_be_evicted: Seq<u32>,
    pub merge: Merge,
}

impl View for FileCollapse {
    type V = FileCollapseView;

    open spec fn view(&self) -> FileCollapseView {
        FileCollapseView {
            backend: self.backend,
            range: self.range,
            fault_in: self.fault_in,
            state: self.state,
            pages: self.pages@,
            faults: self.faults@,
            at: self.at as nat,
            flags: self.flags,
            populate: self.populate@,
            to_be_evicted: self.to_be_evicted@,
            merge: self.merge,
        }
    }
}

/// Whether a cached huge page lies across an end of the pages from `start` up to
/// `end`.
pub open spec fn clashes(chunk: (Option<u32>, usize), start: int, end: int) -> bool {
    chunk.0 is Some && chunk.1 == PAGE_SIZE_2M && (chunk.0.unwrap() > start || chunk.0.unwrap()
        + THP_NR_4K_PAGES < end)
}

/// The search for such a page from the small page `pn` on: the order of the
/// cached pages after it, and whether there is one.
pub open spec fn clash_from(
    s: Seq<(u32, PageCache)>,
    m: Map<u32, PageCache>,
    pn: int,
    start: int,
    end: int,
) -> (Seq<(u32, PageCache)>, bool)
    decreases end - pn,
{
    if pn >= end {
        (s, false)
    } else if clashes(chunk_from(m, 0, pn), start, end) {
        (chunk_order(s, m, 0, pn), true)
    } else {
        clash_from(chunk_order(s, m, 0, pn), m, pn + 1, start, end)
    }
}

impl FileCollapseView {
    pub open spec fn start_pn(self) -> int {
        self.backend.inner.page_at(self.range.start as int)
    }

    pub open spec fn end_pn(self) -> int {
        self.start_pn() + (self.range.end - self.range.start) / PAGE_SIZE_4K as int
    }

    /// Whether the window lies in the mapping, and the merge is that of the
    /// window.
    pub open spec fn window_ok(self) -> bool {
        &&& self.backend.inner.has(self.range)
        &&& self.merge.wf()
        &&& self.merge.start_pn == self.start_pn()
    }

    /// Whether the listed pages lie in the window.
    pub open spec fn ready(self) -> bool {
        &&& self.range.aligned_to(PageSize::Size4K)
        &&& self.pages == page_starts(
            self.range.start as int,
            self.range.end as int,
            PAGE_SIZE_4K as int,
        )
        &&& self.merge.state is Begin
        &&& forall|i: int| 0 <= i < self.faults.len() ==> self.pages.contains(#[trigger] self.faults[i])
    }

    pub open spec fn wf(self) -> bool {
        &&& self.window_ok()
        &&& match self.state {
            FileCollapseState::Begin => {
                &&& self.flags is None
                &&& self.faults.len() == 0
                &&& self.merge.state is Begin
            },
            FileCollapseState::AwaitEntry => self.ready() && self.at < self.pages.len(),
            FileCollapseState::AwaitReuse => self.ready() && self.flags is Some,
            FileCollapseState::Populating => {
                &&& self.ready()
                &&& self.flags is Some
                &&& self.at < self.faults.len()
                &&& self.populate.wf()
            },
            FileCollapseState::Merging => self.flags is Some,
            FileCollapseState::AwaitRemap => true,
            FileCollapseState::Over => true,
        }
    }

    /// Whether the reply can be one to the last request.
    pub open spec fn awaits(self, cache: CacheView, reply: Reply) -> bool {
        match self.state {
            FileCollapseState::Begin => reply is Start,
            FileCollapseState::AwaitEntry => reply is Entry || reply is Fault,
            FileCollapseState::AwaitReuse => reply is Done || reply is Fault,
            FileCollapseState::Populating => self.populate.awaits(cache, reply),
            FileCollapseState::Merging => self.merge.awaits(reply),
            FileCollapseState::AwaitRemap => reply is Done || reply is Fault,
            FileCollapseState::Over => false,
        }
    }

    pub open spec fn asking(
        self,
        state: FileCollapseState,
        cache: CacheView,
        effects: Seq<Effect>,
        request: Request,
    ) -> CacheStep<FileCollapseView, bool> {
        CacheStep {
            next: FileCollapseView { state, ..self },
            cache,
            effects,
            turn: Turn::Ask(request),
        }
    }

    pub open spec fn ending(
        self,
        cache: CacheView,
        effects: Seq<Effect>,
        result: Result<bool, AxError>,
    ) -> CacheStep<FileCollapseView, bool> {
        CacheStep {
            next: FileCollapseView { state: FileCollapseState::Over, ..self },
            cache,
            effects,
            turn: Turn::Finished(result),
        }
    }

    /// The collapse turns to the page where it stands, or, behind the last, to a
    /// cached huge page that can be mapped as it is.
    pub open spec fn looking(self, cache: CacheView) -> CacheStep<FileCollapseView, bool> {
        if self.at < self.pages.len() {
            self.asking(
                FileCollapseState::AwaitEntry,
                cache,
                Seq::empty(),
                Request::Query { va: self.pages[self.at as int] },
            )
        } else if self.flags is None {
            self.ending(cache, Seq::empty(), Ok(false))
        } else {
            let t = FileCollapseView { at: 0, ..self };
            let c = cache.with_pages(touched(cache.pages, self.start_pn() as u32));
            match lookup(cache.pages, self.start_pn() as u32) {
                Some(page) => if page.size == PAGE_SIZE_2M {
                    t.asking(
                        FileCollapseState::AwaitReuse,
                        c,
                        Seq::empty(),
                        Request::RemapHuge {
                            va: self.range.start,
                            paddr: page.paddr,
                            flags: self.flags.unwrap(),
                        },
                    )
                } else {
                    t.faulting(c)
                },
                None => t.faulting(c),
            }
        }
    }

    /// The population of the missing page where the collapse stands.
    pub open spec fn bringing(self) -> FilePopulateView {
        let va = self.faults[self.at as int];
        self.backend.populate_of(
            VirtAddrRange { start: va, end: (va + PAGE_SIZE_4K) as usize },
            self.flags.unwrap(),
            self.flags.unwrap().read_only(),
        )
    }

    /// The collapse turns to the missing page where it stands, or, behind the
    /// last, to the merge.
    #[verifier::opaque]
    pub open spec fn faulting(self, cache: CacheView) -> CacheStep<
        FileCollapseView,
        bool,
    > {
        if self.at < self.faults.len() {
            let s = self.bringing().after(cache, Reply::Start);
            CacheStep {
                next: FileCollapseView {
                    populate: s.next,
                    state: FileCollapseState::Populating,
                    ..self
                },
                cache: s.cache,
                effects: s.effects,
                turn: match s.turn {
                    Turn::Ask(request) => Turn::Ask(request),
                    Turn::Finished(_) => Turn::Finished(Err(AxError::InvalidInput)),
                },
            }
        } else {
            self.merging(self.merge.after(cache, Reply::Start))
        }
    }

    /// The collapse after a step of a population. That a page could not be
    /// brought in does not stop it.
    pub open spec fn populating(self, s: CacheStep<FilePopulateView, usize>) -> CacheStep<
        FileCollapseView,
        bool,
    > {
        let t = FileCollapseView {
            populate: s.next,
            state: FileCollapseState::Populating,
            ..self
        };
        match s.turn {
            Turn::Ask(request) => t.asking(
                FileCollapseState::Populating,
                s.cache,
                s.effects,
                request,
            ),
            Turn::Finished(Ok(_)) => FileCollapseView {
                to_be_evicted: self.to_be_evicted + s.next.to_be_evicted,
                at: self.at + 1,
                ..t
            }.faulting(s.cache).behind(s.effects),
            Turn::Finished(Err(_)) => FileCollapseView { at: self.at + 1, ..t }.faulting(
                s.cache,
            ).behind(s.effects),
        }
    }

    /// The collapse after a step of the merge.
    pub open spec fn merging(self, s: MergeStep) -> CacheStep<
        FileCollapseView,
        bool,
    > {
        let t = FileCollapseView { merge: s.next, state: FileCollapseState::Merging, ..self };
        match s.turn {
            Turn::Ask(request) => t.asking(
                FileCollapseState::Merging,
                s.cache,
                s.effects,
                request,
            ),
            Turn::Finished(Ok(paddr)) => t.asking(
                FileCollapseState::AwaitRemap,
                s.cache,
                s.effects,
                Request::RemapHuge { va: self.range.start, paddr, flags: self.flags.unwrap() },
            ),
            Turn::Finished(Err(e)) => t.ending(s.cache, s.effects, Err(e)),
        }
    }

    /// What the step does.
    #[verifier::opaque]
    pub open spec fn after(self, cache: CacheView, reply: Reply) -> CacheStep<FileCollapseView, bool> {
        match (self.state, reply) {
            (FileCollapseState::Begin, _) => {
                let (s, clash) = clash_from(
                    cache.pages,
                    page_map(cache.pages),
                    self.start_pn(),
                    self.start_pn(),
                    self.end_pn(),
                );
                let c = cache.with_pages(s);
                if clash {
                    self.ending(c, Seq::empty(), Ok(false))
                } else if !self.range.aligned_to(PageSize::Size4K) {
                    self.ending(c, Seq::empty(), Err(AxError::InvalidInput))
                } else {
                    FileCollapseView {
                        pages: page_starts(
                            self.range.start as int,
                            self.range.end as int,
                            PAGE_SIZE_4K as int,
                        ),
                        at: 0,
                        ..self
                    }.looking(c)
                }
            },
            (FileCollapseState::Populating, _) => self.populating(self.populate.after(cache, reply)),
            (FileCollapseState::Merging, _) => self.merging(self.merge.after(cache, reply)),
            (FileCollapseState::AwaitEntry, Reply::Entry { paddr: _, flags, size: _ }) => FileCollapseView {
                flags: if self.flags is None {
                    Some(flags)
                } else {
                    self.flags
                },
                at: self.at + 1,
                ..self
            }.looking(cache),
            (FileCollapseState::AwaitEntry, Reply::Fault(PagingError::NotMapped)) => FileCollapseView {
                faults: if self.fault_in {
                    self.faults.push(self.pages[self.at as int])
                } else {
                    self.faults
                },
                at: self.at + 1,
                ..self
            }.looking(cache),
            (FileCollapseState::AwaitEntry, _) => self.ending(
                cache,
                Seq::empty(),
                Err(AxError::BadAddress),
            ),
            (FileCollapseState::AwaitReuse, Reply::Done) => self.ending(cache, Seq::empty(), Ok(true)),
            (FileCollapseState::AwaitReuse, _) => FileCollapseView { at: 0, ..self }.faulting(
                cache,
            ),
            (FileCollapseState::AwaitRemap, Reply::Done) => self.ending(cache, Seq::empty(), Ok(true)),
            (FileCollapseState::AwaitRemap, Reply::Fault(e)) => self.ending(
                cache,
                Seq::empty(),
                Err(e.into_error()),
            ),
            _ => arbitrary(),
        }
    }
}

impl FileCollapse {
    /// Searches for a cached huge page that lies across an end of the window.
    fn find_clash(&self, shared: &mut CachedFileShared) -> (r: bool)
        requires
            self@.window_ok(),
            old(shared)@.wf(),
        ensures
            final(shared)@.wf(),
            ({
                let (s, clash) = clash_from(
                    old(shared)@.pages,
                    page_map(old(shared)@.pages),
                    self@.start_pn(),
                    self@.start_pn(),
                    self@.end_pn(),
                );
                final(shared)@ == old(shared)@.with_pages(s) && r == clash
            }),
    {
        let ghost m = page_map(shared@.pages);
        let start_pn: u32 = self.merge.start_pn;
        let end_pn: u32 = start_pn + (self.range.size() / PAGE_SIZE_4K) as u32;
        let mut pn: u32 = start_pn;
        let ghost goal = clash_from(
            shared@.pages,
            m,
            start_pn as int,
            start_pn as int,
            end_pn as int,
        );
        while pn < end_pn
            invariant
                start_pn <= pn <= end_pn,
                start_pn == self@.start_pn(),
                end_pn == self@.end_pn(),
                m == page_map(old(shared)@.pages),
                end_pn + THP_NR_4K_PAGES <= u32::MAX,
                shared@.wf(),
                page_map(shared@.pages) == m,
                shared@ == old(shared)@.with_pages(shared@.pages),
                goal == clash_from(
                    old(shared)@.pages,
                    m,
                    start_pn as int,
                    start_pn as int,
                    end_pn as int,
                ),
                clash_from(shared@.pages, m, pn as int, start_pn as int, end_pn as int) == goal,
            decreases end_pn - pn,
        {
            let (base, size) = self.backend.inner.cache.locate_chunk(shared, pn);
            if let Some(chunk_pn) = base {
                proof {
                    lemma_chunk_found(m, 0, pn as int);
                }
                if size == PAGE_SIZE_2M {
                    if chunk_pn > start_pn || chunk_pn + THP_NR_4K_PAGES < end_pn {
                        return true;
                    }
                }
            }
            pn += 1;
        }
        false
    }

    /// Turns to the page where it stands.
    fn look(&mut self, shared: &mut CachedFileShared, effects: &mut Vec<Effect>) -> (r: Turn<bool>)
        requires
            old(self)@.window_ok(),
            old(self)@.ready(),
            old(shared)@.wf(),
        ensures
            final(self)@.wf(),
            final(shared)@.wf(),
            ({
                let s = old(self)@.looking(old(shared)@);
                &&& final(self)@ == s.next
                &&& final(shared)@ == s.cache
                &&& final(effects)@ == old(effects)@ + s.effects
                &&& r == s.turn
            }),
    {
        if self.at < self.pages.len() {
            self.state = FileCollapseState::AwaitEntry;
            return Turn::Ask(Request::Query { va: self.pages[self.at] });
        }
        match self.flags {
            None => {
                self.state = FileCollapseState::Over;
                Turn::Finished(Ok(false))
            },
            Some(flags) => {
                self.at = 0;
                if let Some(page) = shared.touch(self.merge.start_pn) {
                    if page.size() == PAGE_SIZE_2M {
                        self.state = FileCollapseState::AwaitReuse;
                        return Turn::Ask(
                            Request::RemapHuge {
                                va: self.range.start,
                                paddr: page.paddr(),
                                flags,
                            },
                        );
                    }
                }
                self.fault(shared, effects)
            },
        }
    }

    /// Turns to the missing page where it stands.
    fn fault(&mut self, shared: &mut CachedFileShared, effects: &mut Vec<Effect>) -> (r: Turn<bool>)
        requires
            old(self)@.window_ok(),
            old(self)@.ready(),
            old(self).flags is Some,
            old(shared)@.wf(),
        ensures
            final(self)@.wf(),
            final(shared)@.wf(),
            ({
                let s = old(self)@.faulting(old(shared)@);
                &&& final(self)@ == s.next
                &&& final(shared)@ == s.cache
                &&& final(effects)@ == old(effects)@ + s.effects
                &&& r == s.turn
            }),
    {
        reveal(FileCollapseView::faulting);
        reveal(FilePopulateView::after);
        match self.flags {
            Some(flags) => {
                if self.at < self.faults.len() {
                    let va: usize = self.faults[self.at];
                    proof {
                        assert(self.pages@.contains(self.faults@[self.at as int]));
                        lemma_page_starts(self.range.start, self.range.end, va);
                    }
                    self.populate = self.backend.populate(
                        VirtAddrRange::from_start_size(va, PAGE_SIZE_4K),
                        flags,
                        flags.read_only(),
                    );
                    self.state = FileCollapseState::Populating;
                    match self.populate.step(shared, Reply::Start, effects) {
                        Turn::Ask(request) => Turn::Ask(request),
                        Turn::Finished(_) => Turn::Finished(Err(AxError::InvalidInput)),
                    }
                } else {
                    self.step_merge(shared, Reply::Start, effects)
                }
            },
            None => unreached(),
        }
    }

    /// Notes the pages that left the cache during a population.
    fn collect(&mut self)
        ensures
            final(self)@ == (FileCollapseView {
                to_be_evicted: old(self)@.to_be_evicted + old(self)@.populate.to_be_evicted,
                ..old(self)@
            }),
    {
        let ghost before = self@;
        let mut i: usize = 0;
        assert(before.to_be_evicted + before.populate.to_be_evicted.take(0)
            =~= before.to_be_evicted);
        while i < self.populate.to_be_evicted.len()
            invariant
                i <= self.populate.to_be_evicted@.len(),
                self@ == (FileCollapseView {
                    to_be_evicted: before.to_be_evicted + before.populate.to_be_evicted.take(
                        i as int,
                    ),
                    ..before
                }),
            decreases self.populate.to_be_evicted@.len() - i,
        {
            let pn: u32 = self.populate.to_be_evicted[i];
            self.to_be_evicted.push(pn);
            i += 1;
            proof {
                assert(before.populate.to_be_evicted.take(i as int)
                    =~= before.populate.to_be_evicted.take(i - 1).push(pn));
                assert(self.to_be_evicted@ =~= before.to_be_evicted
                    + before.populate.to_be_evicted.take(i as int));
            }
        }
        assert(before.populate.to_be_evicted.take(i as int) =~= before.populate.to_be_evicted);
    }

    /// Takes note of a step of a population.
    fn step_populate(&mut self, shared: &mut CachedFileShared, reply: Reply, effects: &mut Vec<Effect>) -> (r:
        Turn<bool>)
        requires
            old(self)@.wf(),
            old(self).state is Populating,
            old(self)@.populate.awaits(old(shared)@, reply),
            old(shared)@.wf(),
        ensures
            final(self)@.wf(),
            final(shared)@.wf(),
            ({
                let s = old(self)@.populating(old(self)@.populate.after(old(shared)@, reply));
                &&& final(self)@ == s.next
                &&& final(shared)@ == s.cache
                &&& final(effects)@ == old(effects)@ + s.effects
                &&& r == s.turn
            }),
    {
        proof {
            assert(self.faults.len() == self.faults@.len());
        }
        match self.populate.step(shared, reply, effects) {
            Turn::Ask(request) => Turn::Ask(request),
            Turn::Finished(Ok(_)) => {
                self.collect();
                self.at = self.at + 1;
                self.fault(shared, effects)
            },
            Turn::Finished(Err(_)) => {
                self.at = self.at + 1;
                self.fault(shared, effects)
            },
        }
    }

    /// Takes note of a step of the merge.
    fn step_merge(&mut self, shared: &mut CachedFileShared, reply: Reply, effects: &mut Vec<Effect>) -> (r:
        Turn<bool>)
        requires
            old(self)@.window_ok(),
            old(self).flags is Some,
            old(self).merge.awaits(reply),
            old(shared)@.wf(),
        ensures
            final(self)@.wf(),
            final(shared)@.wf(),
            ({
                let s = old(self)@.merging(old(self).merge.after(old(shared)@, reply));
                &&& final(self)@ == s.next
                &&& final(shared)@ == s.cache
                &&& final(effects)@ == old(effects)@ + s.effects
                &&& r == s.turn
            }),
    {
        self.state = FileCollapseState::Merging;
        match (self.merge.step(shared, reply, effects), self.flags) {
            (Turn::Ask(request), _) => Turn::Ask(request),
            (Turn::Finished(Ok(paddr)), Some(flags)) => {
                self.state = FileCollapseState::AwaitRemap;
                Turn::Ask(Request::RemapHuge { va: self.range.start, paddr, flags })
            },
            (Turn::Finished(Err(e)), _) => {
                self.state = FileCollapseState::Over;
                Turn::Finished(Err(e))
            },
            _ => unreached(),
        }
    }

    /// Goes on with the collapse.
    pub fn step(&mut self, shared: &mut CachedFileShared, reply: Reply, effects: &mut Vec<Effect>) -> (r:
        Turn<bool>)
        requires
            old(self)@.wf(),
            old(self)@.awaits(old(shared)@, reply),
            old(shared)@.wf(),
        ensures
            final(self)@.wf(),
            final(shared)@.wf(),
            ({
                let s = old(self)@.after(old(shared)@, reply);
                &&& final(self)@ == s.next
                &&& final(shared)@ == s.cache
                &&& final(effects)@ == old(effects)@ + s.effects
                &&& r == s.turn
            }),
    {
        proof {
            reveal(FileCollapseView::after);
        }
        proof {
            assert(self.pages.len() == self.pages@.len());
        }
        match (self.state, reply) {
            (FileCollapseState::Begin, _) => {
                if self.find_clash(shared) {
                    self.state = FileCollapseState::Over;
                    return Turn::Finished(Ok(false));
                }
                match pages_in(self.range, PageSize::Size4K) {
                    Ok(pages) => {
                        self.pages = pages;
                        self.at = 0;
                        self.look(shared, effects)
                    },
                    Err(e) => {
                        self.state = FileCollapseState::Over;
                        Turn::Finished(Err(e))
                    },
                }
            },
            (FileCollapseState::Populating, _) => self.step_populate(shared, reply, effects),
            (FileCollapseState::Merging, _) => self.step_merge(shared, reply, effects),
            (FileCollapseState::AwaitEntry, Reply::Entry { paddr: _, flags, size: _ }) => {
                if self.flags.is_none() {
                    self.flags = Some(flags);
                }
                self.at = self.at + 1;
                self.look(shared, effects)
            },
            (FileCollapseState::AwaitEntry, Reply::Fault(PagingError::NotMapped)) => {
                if self.fault_in {
                    let ghost t = self@;
                    self.faults.push(self.pages[self.at]);
                    proof {
                        assert forall|i: int| 0 <= i < self.faults@.len() implies self.pages@.contains(
                            #[trigger] self.faults@[i],
                        ) by {
                            if i < t.faults.len() {
                                assert(t.pages.contains(t.faults[i]));
                            } else {
                                assert(t.pages[t.at as int] == self.faults@[i]);
                            }
                        }
                    }
                }
                self.at = self.at + 1;
                self.look(shared, effects)
            },
            (FileCollapseState::AwaitEntry, _) => {
                self.state = FileCollapseState::Over;
                Turn::Finished(Err(AxError::BadAddress))
            },
            (FileCollapseState::AwaitReuse, Reply::Done) => {
                self.state = FileCollapseState::Over;
                Turn::Finished(Ok(true))
            },
            (FileCollapseState::AwaitReuse, _) => {
                self.at = 0;
                self.fault(shared, effects)
            },
            (FileCollapseState::AwaitRemap, Reply::Done) => {
                self.state = FileCollapseState::Over;
                Turn::Finished(Ok(true))
            },
            (FileCollapseState::AwaitRemap, Reply::Fault(e)) => {
                self.state = FileCollapseState::Over;
                Turn::Finished(Err(e.into_error()))
            },
            _ => unreached(),
        }
    }
}

impl FileBackend {
    /// The collapse at its start.
    pub open spec fn collapse_of(self, range: VirtAddrRange, fault_in: bool) -> FileCollapseView {
        let none = MappingFlags { bits: 0 };
        FileCollapseView {
            backend: self,
            range,
            fault_in,
            state: FileCollapseState::Begin,
            pages: Seq::empty(),
            faults: Seq::empty(),
            at: 0,
            flags: None,
            populate: self.populate_of(range, none, none),
            to_be_evicted: Seq::empty(),
            merge: Merge {
                start_pn: self.inner.page_at(range.start as int) as u32,
                in_memory: self.inner.cache.in_memory,
                state: MergeState::Begin,
            },
        }
    }

    /// Collapses a window of the size of a huge page. With `fault_in` the pages
    /// that are not there are brought in.
    pub fn collapse_page(&self, range: VirtAddrRange, fault_in: bool) -> (r: FileCollapse)
        requires
            self.inner.has(range),
        ensures
            r@ == self.collapse_of(range, fault_in),
            r@.wf(),
    {
        let none: MappingFlags = MappingFlags::of(0);
        let start_pn: u32 = ((range.start - self.inner.start) / PAGE_SIZE_4K) as u32
            + self.inner.offset_page;
        FileCollapse {
            backend: *self,
            range,
            fault_in,
            state: FileCollapseState::Begin,
            pages: Vec::new(),
            faults: Vec::new(),
            at: 0,
            flags: None,
            populate: self.populate(range, none, none),
            to_be_evicted: Vec::new(),
            merge: self.inner.cache.replace_with_huge_page(start_pn),
        }
    }
}

} // verus!
