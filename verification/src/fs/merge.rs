//! Merging cached small pages into a huge one.

use vstd::prelude::*;
use vstd::pervasive::unreached;
use crate::addr::{PAGE_SIZE_2M, PAGE_SIZE_4K, THP_NR_4K_PAGES};
use crate::effect::{Effect, Reply, Request, Turn};
use crate::fs::cache::{CacheView, CachedFileShared};
use crate::fs::cached_file::CachedFile;
use crate::fs::evict::cleaned;
use crate::fs::fetch::{free_evicted, freed};
use crate::fs::page::{PageCache, PageOperation};
use crate::fs::recency::{displaced, lookup, pushed, touched, without};

verus! {

/// Where a merge stands.
#[derive(Debug, Clone, Copy, PartialEq, Eq, Structural)]
pub enum MergeState {
    Begin,
    AwaitPage,
    Over,
}

/// The merge of the small pages of a huge page from `start_pn` on. They are
/// unmapped everywhere, copied into a new huge page and leave the cache; the
/// huge page takes their place.
#[derive(Debug, Clone, Copy, PartialEq, Eq, Structural)]
pub struct Merge {
    pub start_pn: u32,
    pub in_memory: bool,
    pub state: MergeState,
}

/// What a step of a merge does. The result is the address of the huge page.
pub struct MergeStep {
    pub next: Merge,
    pub cache: CacheView,
    pub effects: Seq<Effect>,
    pub turn: Turn<usize>,
}

/// The pages after the first `n` of them from `start` on were used in turn.
pub open spec fn swept(s: Seq<(u32, PageCache)>, start: u32, n: nat) -> Seq<(u32, PageCache)>
    decreases n,
{
    if n == 0 {
        s
    } else {
        touched(swept(s, start, (n - 1) as nat), (start + n - 1) as u32)
    }
}

/// The pages after `rounds` such sweeps over a huge page.
pub open spec fn swept_over(s: Seq<(u32, PageCache)>, start: u32, rounds: nat) -> Seq<
    (u32, PageCache),
>
    decreases rounds,
{
    if rounds == 0 {
        s
    } else {
        swept(swept_over(s, start, (rounds - 1) as nat), start, THP_NR_4K_PAGES as nat)
    }
}

/// What one listener is told of the first `n` pages from `start` on.
pub open spec fn unmaps(s: Seq<(u32, PageCache)>, start: u32, n: nat, listener: usize) -> Seq<Effect>
    decreases n,
{
    if n == 0 {
        Seq::empty()
    } else {
        let pn = (start + n - 1) as u32;
        unmaps(s, start, (n - 1) as nat, listener) + match lookup(
            swept(s, start, (n - 1) as nat),
            pn,
        ) {
            Some(page) => seq![Effect::Notify { listener, pn, page, op: PageOperation::Unmap }],
            None => Seq::empty(),
        }
    }
}

/// What the first `rounds` listeners are told, one after the other.
pub open spec fn retracts(cache: CacheView, start: u32, rounds: nat) -> Seq<Effect>
    decreases rounds,
{
    if rounds == 0 {
        Seq::empty()
    } else {
        retracts(cache, start, (rounds - 1) as nat) + unmaps(
            swept_over(cache.pages, start, (rounds - 1) as nat),
            start,
            THP_NR_4K_PAGES as nat,
            cache.listeners[rounds - 1],
        )
    }
}

/// The copies of the first `n` pages from `start` on into a huge page.
pub open spec fn copies(s: Seq<(u32, PageCache)>, start: u32, n: nat, huge: usize) -> Seq<Effect>
    decreases n,
{
    if n == 0 {
        Seq::empty()
    } else {
        copies(s, start, (n - 1) as nat, huge) + match lookup(
            swept(s, start, (n - 1) as nat),
            (start + n - 1) as u32,
        ) {
            Some(page) => seq![
                Effect::Copy {
                    src: page.paddr,
                    dst: (huge + (n - 1) * PAGE_SIZE_4K) as usize,
                    len: PAGE_SIZE_4K,
                },
            ],
            None => Seq::empty(),
        }
    }
}

/// The pages without the first `n` from `start` on.
pub open spec fn vacated(s: Seq<(u32, PageCache)>, start: u32, n: nat) -> Seq<(u32, PageCache)>
    decreases n,
{
    if n == 0 {
        s
    } else {
        without(vacated(s, start, (n - 1) as nat), (start + n - 1) as u32)
    }
}

/// The memory of the first `n` pages from `start` on, given back.
pub open spec fn vacates(s: Seq<(u32, PageCache)>, start: u32, n: nat, in_memory: bool) -> Seq<
    Effect,
>
    decreases n,
{
    if n == 0 {
        Seq::empty()
    } else {
        vacates(s, start, (n - 1) as nat, in_memory) + match lookup(
            vacated(s, start, (n - 1) as nat),
            (start + n - 1) as u32,
        ) {
            Some(page) => seq![
                Effect::FreePage(
                    if in_memory {
                        page
                    } else {
                        cleaned(page)
                    },
                ),
            ],
            None => Seq::empty(),
        }
    }
}

impl Merge {
    pub open spec fn wf(self) -> bool {
        self.start_pn + THP_NR_4K_PAGES <= u32::MAX
    }

    /// Whether the reply can be one to the last request.
    pub open spec fn awaits(self, reply: Reply) -> bool {
        match self.state {
            MergeState::Begin => reply is Start,
            MergeState::AwaitPage => match reply {
                Reply::Addr(paddr) => paddr + PAGE_SIZE_2M <= usize::MAX,
                _ => reply is Failed,
            },
            MergeState::Over => false,
        }
    }

    /// What happens once there is a huge page.
    pub open spec fn merging(self, cache: CacheView, paddr: usize) -> MergeStep {
        let n = THP_NR_4K_PAGES as nat;
        let s = swept(cache.pages, self.start_pn, n);
        let t = vacated(s, self.start_pn, n);
        let huge = PageCache { paddr, dirty: false, size: PAGE_SIZE_2M };
        MergeStep {
            next: Merge { state: MergeState::Over, ..self },
            cache: cache.with_pages(pushed(t, cache.cap, self.start_pn, huge)),
            effects: copies(cache.pages, self.start_pn, n, paddr) + vacates(
                s,
                self.start_pn,
                n,
                self.in_memory,
            ) + freed(displaced(t, cache.cap, self.start_pn)),
            turn: Turn::Finished(Ok(paddr)),
        }
    }

    /// What the step does.
    pub open spec fn after(self, cache: CacheView, reply: Reply) -> MergeStep {
        match (self.state, reply) {
            (MergeState::Begin, _) => MergeStep {
                next: Merge { state: MergeState::AwaitPage, ..self },
                cache: cache.with_pages(
                    swept_over(cache.pages, self.start_pn, cache.listeners.len()),
                ),
                effects: retracts(cache, self.start_pn, cache.listeners.len()),
                turn: Turn::Ask(Request::AllocPage { bytes: PAGE_SIZE_2M }),
            },
            (MergeState::AwaitPage, Reply::Addr(paddr)) => self.merging(cache, paddr),
            (MergeState::AwaitPage, Reply::Failed(e)) => MergeStep {
                next: Merge { state: MergeState::Over, ..self },
                cache,
                effects: Seq::empty(),
                turn: Turn::Finished(Err(e)),
            },
            _ => arbitrary(),
        }
    }

    /// Does what is to be done once there is a huge page.
    fn merge(&mut self, shared: &mut CachedFileShared, paddr: usize, effects: &mut Vec<Effect>) -> (r:
        Turn<usize>)
        requires
            old(self).wf(),
            paddr + PAGE_SIZE_2M <= usize::MAX,
            old(shared)@.wf(),
        ensures
            final(self).wf(),
            final(shared)@.wf(),
            ({
                let s = old(self).merging(old(shared)@, paddr);
                &&& *final(self) == s.next
                &&& final(shared)@ == s.cache
                &&& final(effects)@ == old(effects)@ + s.effects
                &&& r == s.turn
            }),
    {
        let start: u32 = self.start_pn;
        let ghost s = shared@.pages;
        let mut i: u32 = 0;
        while i < THP_NR_4K_PAGES
            invariant
                i <= THP_NR_4K_PAGES,
                start + THP_NR_4K_PAGES <= u32::MAX,
                paddr + PAGE_SIZE_2M <= usize::MAX,
                s == old(shared)@.pages,
                shared@.wf(),
                shared@ == old(shared)@.with_pages(swept(s, start, i as nat)),
                effects@ == old(effects)@ + copies(s, start, i as nat, paddr),
            decreases THP_NR_4K_PAGES - i,
        {
            if let Some(page) = shared.touch(start + i) {
                effects.push(
                    Effect::Copy {
                        src: page.paddr(),
                        dst: paddr + i as usize * PAGE_SIZE_4K,
                        len: PAGE_SIZE_4K,
                    },
                );
            }
            i += 1;
        }
        let ghost swept_pages = shared@.pages;
        let ghost copied = effects@;
        let mut i: u32 = 0;
        while i < THP_NR_4K_PAGES
            invariant
                i <= THP_NR_4K_PAGES,
                *self == *old(self),
                start + THP_NR_4K_PAGES <= u32::MAX,
                shared@.wf(),
                shared@ == old(shared)@.with_pages(vacated(swept_pages, start, i as nat)),
                effects@ == copied + vacates(swept_pages, start, i as nat, self.in_memory),
            decreases THP_NR_4K_PAGES - i,
        {
            if let Some(page) = shared.pop(start + i) {
                let page: PageCache = if self.in_memory {
                    page
                } else {
                    PageCache { dirty: false, ..page }
                };
                effects.push(Effect::FreePage(page));
            }
            i += 1;
        }
        let out: Option<(u32, PageCache)> = shared.push(
            start,
            PageCache::from_addr(paddr, PAGE_SIZE_2M),
        );
        free_evicted(out, effects);
        self.state = MergeState::Over;
        Turn::Finished(Ok(paddr))
    }

    /// Goes on with the merge.
    pub fn step(
        &mut self,
        shared: &mut CachedFileShared,
        reply: Reply,
        effects: &mut Vec<Effect>,
    ) -> (r: Turn<usize>)
        requires
            old(self).wf(),
            old(self).awaits(reply),
            old(shared)@.wf(),
        ensures
            final(self).wf(),
            final(shared)@.wf(),
            ({
                let s = old(self).after(old(shared)@, reply);
                &&& *final(self) == s.next
                &&& final(shared)@ == s.cache
                &&& final(effects)@ == old(effects)@ + s.effects
                &&& r == s.turn
            }),
    {
        match (self.state, reply) {
            (MergeState::Begin, _) => {
                retract(shared, self.start_pn, effects);
                self.state = MergeState::AwaitPage;
                Turn::Ask(Request::AllocPage { bytes: PAGE_SIZE_2M })
            },
            (MergeState::AwaitPage, Reply::Addr(paddr)) => self.merge(shared, paddr, effects),
            (MergeState::AwaitPage, Reply::Failed(e)) => {
                self.state = MergeState::Over;
                Turn::Finished(Err(e))
            },
            _ => unreached(),
        }
    }
}

/// Tells each listener to unmap each cached page of a huge page.
fn retract(shared: &mut CachedFileShared, start_pn: u32, effects: &mut Vec<Effect>)
    requires
        old(shared)@.wf(),
        start_pn + THP_NR_4K_PAGES <= u32::MAX,
    ensures
        final(shared)@.wf(),
        final(shared)@ == old(shared)@.with_pages(
            swept_over(old(shared)@.pages, start_pn, old(shared)@.listeners.len()),
        ),
        final(effects)@ == old(effects)@ + retracts(
            old(shared)@,
            start_pn,
            old(shared)@.listeners.len(),
        ),
{
    let ghost view = shared@;
    let n: usize = shared.listener_count();
    let mut k: usize = 0;
    while k < n
        invariant
            k <= n,
            n == view.listeners.len(),
            view == old(shared)@,
            start_pn + THP_NR_4K_PAGES <= u32::MAX,
            shared@.wf(),
            shared@ == view.with_pages(swept_over(view.pages, start_pn, k as nat)),
            effects@ == old(effects)@ + retracts(view, start_pn, k as nat),
        decreases n - k,
    {
        let listener: usize = shared.listener(k);
        let ghost s = shared@.pages;
        let ghost told = effects@;
        let mut i: u32 = 0;
        while i < THP_NR_4K_PAGES
            invariant
                i <= THP_NR_4K_PAGES,
                start_pn + THP_NR_4K_PAGES <= u32::MAX,
                shared@.wf(),
                shared@ == view.with_pages(swept(s, start_pn, i as nat)),
                effects@ == told + unmaps(s, start_pn, i as nat, listener),
            decreases THP_NR_4K_PAGES - i,
        {
            let pn: u32 = start_pn + i;
            if let Some(page) = shared.touch(pn) {
                effects.push(Effect::Notify { listener, pn, page, op: PageOperation::Unmap });
            }
            i += 1;
        }
        k += 1;
    }
}

impl CachedFile {
    /// Tells each listener to unmap each cached page of the huge page that
    /// starts at `start_pn`.
    pub fn retract_page_tables(
        &self,
        shared: &mut CachedFileShared,
        start_pn: u32,
        effects: &mut Vec<Effect>,
    )
        requires
            old(shared)@.wf(),
            start_pn + THP_NR_4K_PAGES <= u32::MAX,
        ensures
            final(shared)@.wf(),
            final(shared)@ == old(shared)@.with_pages(
                swept_over(old(shared)@.pages, start_pn, old(shared)@.listeners.len()),
            ),
            final(effects)@ == old(effects)@ + retracts(
                old(shared)@,
                start_pn,
                old(shared)@.listeners.len(),
            ),
    {
        retract(shared, start_pn, effects);
    }

    /// Merges the small pages of the huge page that starts at `start_pn`.
    pub fn replace_with_huge_page(&self, start_pn: u32) -> (r: Merge)
        requires
            start_pn + THP_NR_4K_PAGES <= u32::MAX,
        ensures
            r == (Merge { start_pn, in_memory: self.in_memory, state: MergeState::Begin }),
            r.wf(),
    {
        Merge { start_pn, in_memory: self.in_memory, state: MergeState::Begin }
    }
}

} // verus!
