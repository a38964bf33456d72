//! Bringing a file in step with its cache.

use vstd::prelude::*;
use vstd::pervasive::unreached;
use crate::effect::{Effect, Reply, Request, Turn};
use crate::fs::cache::{CacheView, CachedFileShared};
use crate::fs::cached_file::CachedFile;
use crate::fs::evict::{Eviction, EvictState};
use crate::fs::page::{PageCache, PageOperation};

verus! {

/// Where a sync stands.
#[derive(Debug, Clone, Copy, PartialEq, Eq, Structural)]
pub enum SyncState {
    Begin,
    Evicting,
    AwaitSync,
    Over,
}

/// A sync: every page leaves the cache, the least recently used first, and the
/// file itself is synced. A file without a device is always in step.
#[derive(Debug, Clone, Copy, PartialEq, Eq, Structural)]
pub struct CacheSync {
    pub in_memory: bool,
    pub data_only: bool,
    pub state: SyncState,
    /// The page that is leaving.
    pub eviction: Eviction,
}

/// What a step of a sync does.
pub struct SyncStep {
    pub next: CacheSync,
    pub cache: CacheView,
    pub effects: Seq<Effect>,
    pub turn: Turn<()>,
}

/// What is left of a cache after the clean pages at its end have left, up to
/// the first dirty one; what happens on the way; and that dirty page, which has
/// left too.
pub open spec fn drained(cache: CacheView) -> (CacheView, Seq<Effect>, Option<(u32, PageCache)>)
    decreases cache.pages.len(),
{
    if cache.pages.len() == 0 {
        (cache, Seq::empty(), None)
    } else {
        let (pn, page) = cache.pages.last();
        let rest = cache.with_pages(cache.pages.drop_last());
        let notices = cache.notices(pn, page, PageOperation::Unmap);
        if page.dirty {
            (rest, notices, Some((pn, page)))
        } else {
            let (left, effects, dirty) = drained(rest);
            (left, notices + seq![Effect::FreePage(page)] + effects, dirty)
        }
    }
}

impl CacheSync {
    /// Whether the reply can be one to the last request.
    pub open spec fn awaits(self, reply: Reply) -> bool {
        match self.state {
            SyncState::Begin => reply is Start,
            SyncState::Evicting => !(self.eviction.state is Begin) && self.eviction.awaits(reply),
            SyncState::AwaitSync => reply is Done || reply is Failed,
            SyncState::Over => false,
        }
    }

    /// The pages leave from here on.
    pub open spec fn draining(self, cache: CacheView, effects: Seq<Effect>) -> SyncStep {
        let (left, more, dirty) = drained(cache);
        match dirty {
            Some((pn, page)) => SyncStep {
                next: CacheSync {
                    state: SyncState::Evicting,
                    eviction: Eviction { pn, page, state: EvictState::AwaitLen },
                    ..self
                },
                cache: left,
                effects: effects + more,
                turn: Turn::Ask(Request::FileLen),
            },
            None => SyncStep {
                next: CacheSync { state: SyncState::AwaitSync, ..self },
                cache: left,
                effects: effects + more,
                turn: Turn::Ask(Request::FileSync { data_only: self.data_only }),
            },
        }
    }

    /// The sync after a step of its eviction.
    pub open spec fn evicting(self, cache: CacheView, reply: Reply) -> SyncStep {
        let s = self.eviction.after(cache, reply);
        let t = CacheSync { eviction: s.next, ..self };
        match s.turn {
            Turn::Ask(request) => SyncStep {
                next: t,
                cache,
                effects: s.effects,
                turn: Turn::Ask(request),
            },
            Turn::Finished(Ok(page)) => t.draining(cache, s.effects + seq![Effect::FreePage(page)]),
            Turn::Finished(Err(e)) => SyncStep {
                next: CacheSync { state: SyncState::Over, ..t },
                cache,
                effects: s.effects + seq![Effect::FreePage(t.eviction.page)],
                turn: Turn::Finished(Err(e)),
            },
        }
    }

    /// What the step does.
    pub open spec fn after(self, cache: CacheView, reply: Reply) -> SyncStep {
        let over = CacheSync { state: SyncState::Over, ..self };
        match (self.state, reply) {
            (SyncState::Begin, _) => if self.in_memory {
                SyncStep { next: over, cache, effects: Seq::empty(), turn: Turn::Finished(Ok(())) }
            } else {
                self.draining(cache, Seq::empty())
            },
            (SyncState::Evicting, _) => self.evicting(cache, reply),
            (SyncState::AwaitSync, Reply::Done) => SyncStep {
                next: over,
                cache,
                effects: Seq::empty(),
                turn: Turn::Finished(Ok(())),
            },
            (SyncState::AwaitSync, Reply::Failed(e)) => SyncStep {
                next: over,
                cache,
                effects: Seq::empty(),
                turn: Turn::Finished(Err(e)),
            },
            _ => arbitrary(),
        }
    }

    /// Lets the pages leave from here on.
    fn drain(&mut self, shared: &mut CachedFileShared, effects: &mut Vec<Effect>) -> (r: Turn<()>)
        requires
            old(shared)@.wf(),
        ensures
            final(shared)@.wf(),
            ({
                let s = old(self).draining(old(shared)@, Seq::empty());
                &&& *final(self) == s.next
                &&& final(shared)@ == s.cache
                &&& final(effects)@ == old(effects)@ + s.effects
                &&& r == s.turn
            }),
    {
        assert(effects@ + drained(shared@).1 =~= old(effects)@ + (Seq::<Effect>::empty() + drained(
            old(shared)@,
        ).1));
        while shared.len() > 0
            invariant
                *self == *old(self),
                shared@.wf(),
                drained(shared@).0 == drained(old(shared)@).0,
                drained(shared@).2 == drained(old(shared)@).2,
                effects@ + drained(shared@).1 == old(effects)@ + (Seq::<Effect>::empty() + drained(
                    old(shared)@,
                ).1),
            decreases shared@.pages.len(),
        {
            let ghost before = shared@;
            let ghost effects_before = effects@;
            match shared.pop_lru() {
                Some(entry) => {
                    let (pn, page) = entry;
                    let mut eviction: Eviction = Eviction::new(pn, page);
                    match eviction.step(shared, Reply::Start, effects) {
                        Turn::Ask(request) => {
                            self.eviction = eviction;
                            self.state = SyncState::Evicting;
                            return Turn::Ask(request);
                        },
                        Turn::Finished(Ok(page)) => {
                            effects.push(Effect::FreePage(page));
                            proof {
                                let notices = before.notices(pn, page, PageOperation::Unmap);
                                assert(shared@.notices(pn, page, PageOperation::Unmap) == notices);
                                assert(effects@ + drained(shared@).1 =~= effects_before + (notices
                                    + seq![Effect::FreePage(page)] + drained(shared@).1));
                            }
                        },
                        Turn::Finished(Err(_)) => return unreached(),
                    }
                },
                None => return unreached(),
            }
        }
        proof {
            assert(effects@ + drained(shared@).1 =~= effects@);
        }
        self.state = SyncState::AwaitSync;
        Turn::Ask(Request::FileSync { data_only: self.data_only })
    }

    /// Goes on with the sync.
    pub fn step(
        &mut self,
        shared: &mut CachedFileShared,
        reply: Reply,
        effects: &mut Vec<Effect>,
    ) -> (r: Turn<()>)
        requires
            old(self).awaits(reply),
            old(shared)@.wf(),
        ensures
            final(shared)@.wf(),
            ({
                let s = old(self).after(old(shared)@, reply);
                &&& *final(self) == s.next
                &&& final(shared)@ == s.cache
                &&& final(effects)@ == old(effects)@ + s.effects
                &&& r == s.turn
            }),
    {
        match (self.state, reply) {
            (SyncState::Begin, _) => {
                if self.in_memory {
                    self.state = SyncState::Over;
                    Turn::Finished(Ok(()))
                } else {
                    self.drain(shared, effects)
                }
            },
            (SyncState::Evicting, _) => {
                match self.eviction.step(shared, reply, effects) {
                    Turn::Ask(request) => Turn::Ask(request),
                    Turn::Finished(Ok(page)) => {
                        effects.push(Effect::FreePage(page));
                        self.drain(shared, effects)
                    },
                    Turn::Finished(Err(e)) => {
                        effects.push(Effect::FreePage(self.eviction.page));
                        self.state = SyncState::Over;
                        Turn::Finished(Err(e))
                    },
                }
            },
            (SyncState::AwaitSync, Reply::Done) => {
                self.state = SyncState::Over;
                Turn::Finished(Ok(()))
            },
            (SyncState::AwaitSync, Reply::Failed(e)) => {
                self.state = SyncState::Over;
                Turn::Finished(Err(e))
            },
            _ => unreached(),
        }
    }
}

impl CachedFile {
    /// The sync at its start.
    pub open spec fn sync_of(self, data_only: bool) -> CacheSync {
        CacheSync {
            in_memory: self.in_memory,
            data_only,
            state: SyncState::Begin,
            eviction: Eviction {
                pn: 0,
                page: PageCache { paddr: 0, dirty: false, size: 0 },
                state: EvictState::Begin,
            },
        }
    }

    /// Brings the file in step with its cache. With `data_only` the file itself
    /// need not sync what describes it.
    pub fn sync(&self, data_only: bool) -> (r: CacheSync)
        ensures
            r == self.sync_of(data_only),
    {
        CacheSync {
            in_memory: self.in_memory,
            data_only,
            state: SyncState::Begin,
            eviction: Eviction::new(0, PageCache::from_addr(0, 0)),
        }
    }
}

} // verus!
