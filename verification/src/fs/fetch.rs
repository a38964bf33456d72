//! Bringing a page into the cache.

use vstd::prelude::*;
use vstd::pervasive::unreached;
use crate::addr::PAGE_SIZE_4K;
use crate::effect::{Effect, Reply, Request, Turn};
use crate::fs::cache::{CacheView, CachedFileShared};
use crate::fs::cached_file::CachedFile;
use crate::fs::evict::{page_start, Eviction, EvictState};
use crate::fs::page::{is_cache_page_size, PageCache};
use crate::fs::recency::{has_key, lemma_lookup_map, lookup, page_map, pushed, touched};

verus! {

/// Where a fetch stands.
#[derive(Debug, Clone, Copy, PartialEq, Eq, Structural)]
pub enum FetchState {
    Begin,
    Evicting,
    AwaitPage,
    AwaitRead,
    Over,
}

/// The search for the page `pn`. Where it is not cached it is made: a page of
/// `size` bytes is allocated and filled, from the file, or with zeros for a file
/// without a device, after the least recently used page has left a full cache.
#[derive(Debug, Clone, Copy)]
pub struct PageFetch {
    pub pn: u32,
    pub size: usize,
    pub in_memory: bool,
    pub state: FetchState,
    /// The page that is leaving.
    pub eviction: Eviction,
    /// The page that has left.
    pub evicted: Option<(u32, PageCache)>,
    /// The new page.
    pub fresh: PageCache,
}

/// The page that was sought, and the page that left for it.
#[derive(Debug, Clone, Copy)]
pub struct Fetched {
    pub page: PageCache,
    pub evicted: Option<(u32, PageCache)>,
}

/// What a step of a fetch does.
pub struct FetchStep {
    pub next: PageFetch,
    pub cache: CacheView,
    pub effects: Seq<Effect>,
    pub turn: Turn<Fetched>,
}

/// The memory of a page that has left, given back.
pub open spec fn freed(evicted: Option<(u32, PageCache)>) -> Seq<Effect> {
    match evicted {
        Some(entry) => seq![Effect::FreePage(entry.1)],
        None => Seq::empty(),
    }
}

/// Gives the memory of a page that has left back.
pub fn free_evicted(evicted: Option<(u32, PageCache)>, effects: &mut Vec<Effect>)
    ensures
        final(effects)@ == old(effects)@ + freed(evicted),
{
    if let Some(entry) = evicted {
        effects.push(Effect::FreePage(entry.1));
    }
}

impl PageFetch {
    pub open spec fn wf(self) -> bool {
        &&& is_cache_page_size(self.size)
        &&& self.state is AwaitRead ==> self.fresh.size == self.size && self.fresh.wf()
    }

    /// Whether the reply can be one to the last request.
    pub open spec fn awaits(self, reply: Reply) -> bool {
        match self.state {
            FetchState::Begin => reply is Start,
            FetchState::Evicting => !(self.eviction.state is Begin) && self.eviction.awaits(reply),
            FetchState::AwaitPage => match reply {
                Reply::Addr(paddr) => paddr + self.size <= usize::MAX,
                _ => reply is Failed,
            },
            FetchState::AwaitRead => reply is Done || reply is Failed,
            FetchState::Over => false,
        }
    }

    /// The fetch asks for a new page.
    pub open spec fn asking(self, cache: CacheView, effects: Seq<Effect>) -> FetchStep {
        FetchStep {
            next: PageFetch { state: FetchState::AwaitPage, ..self },
            cache,
            effects,
            turn: Turn::Ask(Request::AllocPage { bytes: self.size }),
        }
    }

    /// The fetch fails.
    pub open spec fn failing(
        self,
        cache: CacheView,
        effects: Seq<Effect>,
        e: crate::error::VfsError,
    ) -> FetchStep {
        FetchStep {
            next: PageFetch { state: FetchState::Over, ..self },
            cache,
            effects,
            turn: Turn::Finished(Err(e)),
        }
    }

    /// The new page is put into the cache.
    pub open spec fn landing(self, cache: CacheView, effects: Seq<Effect>, page: PageCache) -> FetchStep {
        FetchStep {
            next: PageFetch { state: FetchState::Over, fresh: page, ..self },
            cache: cache.with_pages(pushed(cache.pages, cache.cap, self.pn, page)),
            effects,
            turn: Turn::Finished(Ok(Fetched { page, evicted: self.evicted })),
        }
    }

    /// The fetch after a step of its eviction.
    pub open spec fn evicting(self, cache: CacheView, reply: Reply) -> FetchStep {
        let s = self.eviction.after(cache, reply);
        let f = PageFetch { state: FetchState::Evicting, eviction: s.next, ..self };
        match s.turn {
            Turn::Ask(request) => FetchStep {
                next: f,
                cache,
                effects: s.effects,
                turn: Turn::Ask(request),
            },
            Turn::Finished(Ok(page)) => PageFetch {
                evicted: Some((f.eviction.pn, page)),
                ..f
            }.asking(cache, s.effects),
            Turn::Finished(Err(e)) => f.failing(
                cache,
                s.effects + seq![Effect::FreePage(f.eviction.page)],
                e,
            ),
        }
    }

    /// What the step does.
    #[verifier::opaque]
    pub open spec fn after(self, cache: CacheView, reply: Reply) -> FetchStep {
        match (self.state, reply) {
            (FetchState::Begin, _) => if has_key(cache.pages, self.pn) {
                FetchStep {
                    next: PageFetch { state: FetchState::Over, ..self },
                    cache: cache.with_pages(touched(cache.pages, self.pn)),
                    effects: Seq::empty(),
                    turn: Turn::Finished(
                        Ok(Fetched { page: lookup(cache.pages, self.pn).unwrap(), evicted: None }),
                    ),
                }
            } else if cache.full() {
                let (pn, page) = cache.pages.last();
                PageFetch {
                    eviction: Eviction { pn, page, state: EvictState::Begin },
                    ..self
                }.evicting(cache.with_pages(cache.pages.drop_last()), Reply::Start)
            } else {
                self.asking(cache, Seq::empty())
            },
            (FetchState::Evicting, _) => self.evicting(cache, reply),
            (FetchState::AwaitPage, Reply::Addr(paddr)) => {
                let page = PageCache { paddr, dirty: false, size: self.size };
                if self.in_memory {
                    self.landing(cache, seq![Effect::Zero { paddr, len: self.size }], page)
                } else {
                    FetchStep {
                        next: PageFetch { state: FetchState::AwaitRead, fresh: page, ..self },
                        cache,
                        effects: Seq::empty(),
                        turn: Turn::Ask(
                            Request::FileRead {
                                paddr,
                                len: self.size,
                                offset: page_start(self.pn) as u64,
                            },
                        ),
                    }
                }
            },
            (FetchState::AwaitPage, Reply::Failed(e)) => self.failing(cache, freed(self.evicted), e),
            (FetchState::AwaitRead, Reply::Done) => self.landing(cache, Seq::empty(), self.fresh),
            (FetchState::AwaitRead, Reply::Failed(e)) => self.failing(
                cache,
                seq![Effect::FreePage(self.fresh)] + freed(self.evicted),
                e,
            ),
            _ => arbitrary(),
        }
    }

    /// Goes on with an eviction.
    fn step_eviction(
        &mut self,
        shared: &CachedFileShared,
        reply: Reply,
        effects: &mut Vec<Effect>,
    ) -> (r: Turn<Fetched>)
        requires
            old(self).wf(),
            old(self).eviction.awaits(reply),
        ensures
            final(self).wf(),
            ({
                let s = old(self).evicting(shared@, reply);
                &&& *final(self) == s.next
                &&& s.cache == shared@
                &&& final(effects)@ == old(effects)@ + s.effects
                &&& r == s.turn
            }),
    {
        self.state = FetchState::Evicting;
        match self.eviction.step(shared, reply, effects) {
            Turn::Ask(request) => Turn::Ask(request),
            Turn::Finished(Ok(page)) => {
                self.evicted = Some((self.eviction.pn, page));
                self.state = FetchState::AwaitPage;
                Turn::Ask(Request::AllocPage { bytes: self.size })
            },
            Turn::Finished(Err(e)) => {
                effects.push(Effect::FreePage(self.eviction.page));
                self.state = FetchState::Over;
                Turn::Finished(Err(e))
            },
        }
    }

    /// Goes on with the fetch.
    pub fn step(
        &mut self,
        shared: &mut CachedFileShared,
        reply: Reply,
        effects: &mut Vec<Effect>,
    ) -> (r: Turn<Fetched>)
        requires
            old(self).wf(),
            old(self).awaits(reply),
            old(shared)@.wf(),
        ensures
            final(self).wf(),
            final(shared)@.wf(),
            ({
                let s = old(self).after(old(shared)@, reply);
                &&& *final(self) == s.next
                &&& final(shared)@ == s.cache
                &&& final(effects)@ == old(effects)@ + s.effects
                &&& r == s.turn
            }),
            final(self).pn == old(self).pn,
            r matches Turn::Finished(Ok(fetched)) ==> fetched.page.wf(),
    {
        proof {
            reveal(PageFetch::after);
        }
        match (self.state, reply) {
            (FetchState::Begin, _) => {
                if shared.contains(self.pn) {
                    self.state = FetchState::Over;
                    proof {
                        lemma_lookup_map(shared@.pages, self.pn);
                        assert(page_map(shared@.pages).dom().contains(self.pn));
                    }
                    match shared.touch(self.pn) {
                        Some(page) => Turn::Finished(Ok(Fetched { page, evicted: None })),
                        None => unreached(),
                    }
                } else if shared.is_full() {
                    match shared.pop_lru() {
                        Some(entry) => {
                            self.eviction = Eviction::new(entry.0, entry.1);
                            self.step_eviction(shared, Reply::Start, effects)
                        },
                        None => unreached(),
                    }
                } else {
                    self.state = FetchState::AwaitPage;
                    Turn::Ask(Request::AllocPage { bytes: self.size })
                }
            },
            (FetchState::Evicting, _) => self.step_eviction(shared, reply, effects),
            (FetchState::AwaitPage, Reply::Addr(paddr)) => {
                self.fresh = PageCache::from_addr(paddr, self.size);
                if self.in_memory {
                    effects.push(Effect::Zero { paddr, len: self.size });
                    shared.push(self.pn, self.fresh);
                    self.state = FetchState::Over;
                    Turn::Finished(Ok(Fetched { page: self.fresh, evicted: self.evicted }))
                } else {
                    self.state = FetchState::AwaitRead;
                    Turn::Ask(
                        Request::FileRead {
                            paddr,
                            len: self.size,
                            offset: self.pn as u64 * PAGE_SIZE_4K as u64,
                        },
                    )
                }
            },
            (FetchState::AwaitPage, Reply::Failed(e)) => {
                free_evicted(self.evicted, effects);
                self.state = FetchState::Over;
                Turn::Finished(Err(e))
            },
            (FetchState::AwaitRead, Reply::Done) => {
                shared.push(self.pn, self.fresh);
                self.state = FetchState::Over;
                Turn::Finished(Ok(Fetched { page: self.fresh, evicted: self.evicted }))
            },
            (FetchState::AwaitRead, Reply::Failed(e)) => {
                effects.push(Effect::FreePage(self.fresh));
                free_evicted(self.evicted, effects);
                self.state = FetchState::Over;
                Turn::Finished(Err(e))
            },
            _ => unreached(),
        }
    }
}

impl CachedFile {
    /// The fetch of the page `pn` at its start.
    pub open spec fn fetch_of(self, pn: u32, size: usize) -> PageFetch {
        let none = PageCache { paddr: 0, dirty: false, size: 0 };
        PageFetch {
            pn,
            size,
            in_memory: self.in_memory,
            state: FetchState::Begin,
            eviction: Eviction { pn: 0, page: none, state: EvictState::Begin },
            evicted: None,
            fresh: none,
        }
    }

    /// Seeks the page `pn`, to be made with `size` bytes where it is not cached.
    pub fn with_page_or_insert(&self, pn: u32, size: usize) -> (r: PageFetch)
        requires
            is_cache_page_size(size),
        ensures
            r == self.fetch_of(pn, size),
            r.wf(),
    {
        let none: PageCache = PageCache::from_addr(0, 0);
        PageFetch {
            pn,
            size,
            in_memory: self.in_memory,
            state: FetchState::Begin,
            eviction: Eviction::new(0, none),
            evicted: None,
            fresh: none,
        }
    }
}

} // verus!
