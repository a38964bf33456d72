//! Splitting a cached huge page into small ones.

use vstd::prelude::*;
use vstd::pervasive::unreached;
use crate::addr::{PAGE_SIZE_2M, PAGE_SIZE_4K, THP_NR_4K_PAGES};
use crate::effect::{Effect, Reply, Request, Turn};
use crate::fs::cache::{CacheView, CachedFileShared};
use crate::fs::cached_file::CachedFile;
use crate::fs::chunks::{chunk_from, chunk_order};
use crate::fs::evict::{Eviction, EvictState};
use crate::fs::fetch::{free_evicted, freed};
use crate::fs::page::{PageCache, PageOperation};
use crate::fs::recency::{displaced, lemma_lookup_map, lookup, page_map, pushed, touched, without};

verus! {

/// Where a split stands.
#[derive(Debug, Clone, Copy, PartialEq, Eq, Structural)]
pub enum SplitState {
    Begin,
    Evicting,
    Over,
}

/// A split of the cached huge page that has the small page `pn` in it. The
/// memory stays where it is; the small pages over it come into the cache one by
/// one, each after the least recently used page has left a full cache.
#[derive(Debug, Clone, Copy, PartialEq, Eq, Structural)]
pub struct Split {
    pub file: CachedFile,
    pub pn: u32,
    pub state: SplitState,
    /// The first small page of the huge page.
    pub base_pn: u32,
    pub huge: PageCache,
    /// How many small pages are in the cache already.
    pub done: u32,
    /// The page that is leaving.
    pub eviction: Eviction,
}

/// What a step of a split does.
pub struct SplitStep {
    pub next: Split,
    pub cache: CacheView,
    pub effects: Seq<Effect>,
    pub turn: Turn<usize>,
}

impl SplitStep {
    /// The same step after other effects.
    pub open spec fn behind(self, effects: Seq<Effect>) -> SplitStep {
        SplitStep { effects: effects + self.effects, ..self }
    }
}

impl Split {
    pub open spec fn wf(self) -> bool {
        match self.state {
            SplitState::Begin => self.pn + THP_NR_4K_PAGES <= u32::MAX,
            SplitState::Evicting => {
                &&& self.done < THP_NR_4K_PAGES
                &&& self.ready()
                &&& self.eviction.page.wf()
            },
            SplitState::Over => true,
        }
    }

    /// Whether the huge page is one, and its small pages have numbers.
    pub open spec fn ready(self) -> bool {
        &&& self.huge.wf()
        &&& self.huge.size == PAGE_SIZE_2M
        &&& self.base_pn + THP_NR_4K_PAGES <= u32::MAX
    }

    /// Whether there is a huge page to split: the cached chunk with `pn` in it.
    pub open spec fn splits(self, cache: CacheView) -> bool {
        self.state is Begin ==> {
            let (base, size) = chunk_from(page_map(cache.pages), 0, self.pn as int);
            base is Some && size == PAGE_SIZE_2M
        }
    }

    /// Whether the reply can be one to the last request.
    pub open spec fn awaits(self, reply: Reply) -> bool {
        match self.state {
            SplitState::Begin => reply is Start,
            SplitState::Evicting => !(self.eviction.state is Begin) && self.eviction.awaits(reply),
            SplitState::Over => false,
        }
    }

    /// The small page `i` of the huge page.
    pub open spec fn small(self, i: int) -> PageCache {
        PageCache { paddr: (self.huge.paddr + i * PAGE_SIZE_4K) as usize, dirty: false, size: PAGE_SIZE_4K }
    }

    /// The split with one small page more in the cache.
    pub open spec fn one_more(self) -> Split {
        Split { done: (self.done + 1) as u32, ..self }
    }

    /// The cache after the next small page came into it.
    pub open spec fn one_in(self, cache: CacheView) -> CacheView {
        cache.with_pages(
            pushed(
                cache.pages,
                cache.cap,
                (self.base_pn + self.done) as u32,
                self.small(self.done as int),
            ),
        )
    }

    /// The page that leaves when the next small page comes into the cache.
    pub open spec fn one_out(self, cache: CacheView) -> Seq<Effect> {
        freed(displaced(cache.pages, cache.cap, (self.base_pn + self.done) as u32))
    }

    /// The small pages come into the cache from here on.
    pub open spec fn going(self, cache: CacheView) -> SplitStep
        decreases THP_NR_4K_PAGES - self.done,
    {
        if self.done >= THP_NR_4K_PAGES {
            SplitStep {
                next: Split { state: SplitState::Over, ..self },
                cache,
                effects: Seq::empty(),
                turn: Turn::Finished(Ok(0)),
            }
        } else if cache.full() {
            let (pn, page) = cache.pages.last();
            let rest = cache.with_pages(cache.pages.drop_last());
            let notices = cache.notices(pn, page, PageOperation::Unmap);
            if page.dirty {
                SplitStep {
                    next: Split {
                        state: SplitState::Evicting,
                        eviction: Eviction { pn, page, state: EvictState::AwaitLen },
                        ..self
                    },
                    cache: rest,
                    effects: notices,
                    turn: Turn::Ask(Request::FileLen),
                }
            } else {
                self.one_more().going(self.one_in(rest)).behind(
                    notices + seq![Effect::FreePage(page)] + self.one_out(rest),
                )
            }
        } else {
            self.one_more().going(self.one_in(cache)).behind(self.one_out(cache))
        }
    }

    /// The split after a step of its eviction. A page that could not be written
    /// back goes back into the cache.
    pub open spec fn evicting(self, cache: CacheView, reply: Reply) -> SplitStep {
        let s = self.eviction.after(cache, reply);
        let t = Split { eviction: s.next, ..self };
        let (pn, page) = (t.eviction.pn, t.eviction.page);
        match s.turn {
            Turn::Ask(request) => SplitStep {
                next: t,
                cache,
                effects: s.effects,
                turn: Turn::Ask(request),
            },
            Turn::Finished(Ok(clean)) => t.one_more().going(t.one_in(cache)).behind(
                s.effects + seq![Effect::FreePage(clean)] + t.one_out(cache),
            ),
            Turn::Finished(Err(e)) => SplitStep {
                next: Split { state: SplitState::Over, ..t },
                cache: cache.with_pages(pushed(cache.pages, cache.cap, pn, page)),
                effects: s.effects + freed(displaced(cache.pages, cache.cap, pn)),
                turn: Turn::Finished(Err(e)),
            },
        }
    }

    /// What the step does.
    #[verifier::opaque]
    pub open spec fn after(self, cache: CacheView, reply: Reply) -> SplitStep {
        match (self.state, reply) {
            (SplitState::Begin, _) => {
                let m = page_map(cache.pages);
                let base = chunk_from(m, 0, self.pn as int).0.unwrap();
                let s = chunk_order(cache.pages, m, 0, self.pn as int);
                let huge = lookup(s, base).unwrap();
                Split { base_pn: base, huge, done: 0, ..self }.going(
                    cache.with_pages(without(touched(s, base), base)),
                ).behind(cache.notices(base, huge, PageOperation::Demote))
            },
            (SplitState::Evicting, _) => self.evicting(cache, reply),
            _ => arbitrary(),
        }
    }

    /// Brings the next small page into the cache.
    fn place(&mut self, shared: &mut CachedFileShared, effects: &mut Vec<Effect>)
        requires
            old(self).ready(),
            old(self).done < THP_NR_4K_PAGES,
            old(shared)@.wf(),
        ensures
            *final(self) == old(self).one_more(),
            final(shared)@.wf(),
            final(shared)@ == old(self).one_in(old(shared)@),
            final(effects)@ == old(effects)@ + old(self).one_out(old(shared)@),
    {
        let paddr: usize = self.huge.paddr() + self.done as usize * PAGE_SIZE_4K;
        let page: PageCache = PageCache::from_addr(paddr, PAGE_SIZE_4K);
        let out: Option<(u32, PageCache)> = shared.push(self.base_pn + self.done, page);
        free_evicted(out, effects);
        self.done = self.done + 1;
    }

    /// Brings the small pages into the cache from here on.
    fn go(&mut self, shared: &mut CachedFileShared, effects: &mut Vec<Effect>) -> (r: Turn<usize>)
        requires
            old(self).ready(),
            old(self).done <= THP_NR_4K_PAGES,
            old(shared)@.wf(),
        ensures
            final(self).wf(),
            final(shared)@.wf(),
            ({
                let s = old(self).going(old(shared)@);
                &&& *final(self) == s.next
                &&& final(shared)@ == s.cache
                &&& final(effects)@ == old(effects)@ + s.effects
                &&& r == s.turn
            }),
            r is Ask ==> final(self).state is Evicting,
    {
        while self.done < THP_NR_4K_PAGES
            invariant
                self.ready(),
                self.done <= THP_NR_4K_PAGES,
                shared@.wf(),
                self.going(shared@).next == old(self).going(old(shared)@).next,
                self.going(shared@).cache == old(self).going(old(shared)@).cache,
                self.going(shared@).turn == old(self).going(old(shared)@).turn,
                effects@ + self.going(shared@).effects == old(effects)@ + old(self).going(
                    old(shared)@,
                ).effects,
            decreases THP_NR_4K_PAGES - self.done,
        {
            let ghost t = *self;
            let ghost before = shared@;
            let ghost effects_before = effects@;
            if shared.is_full() {
                match shared.pop_lru() {
                    Some(entry) => {
                        let (pn, page) = entry;
                        let mut eviction: Eviction = Eviction::new(pn, page);
                        proof {
                            assert(before.notices(pn, page, PageOperation::Unmap)
                                == shared@.notices(pn, page, PageOperation::Unmap));
                        }
                        match eviction.step(shared, Reply::Start, effects) {
                            Turn::Ask(request) => {
                                self.eviction = eviction;
                                self.state = SplitState::Evicting;
                                return Turn::Ask(request);
                            },
                            Turn::Finished(Ok(page)) => {
                                effects.push(Effect::FreePage(page));
                            },
                            Turn::Finished(Err(_)) => return unreached(),
                        }
                    },
                    None => return unreached(),
                }
            }
            self.place(shared, effects);
            assert(effects@ + self.going(shared@).effects =~= effects_before + t.going(before).effects);
        }
        self.state = SplitState::Over;
        Turn::Finished(Ok(0))
    }

    /// Goes on with the split.
    pub fn step(
        &mut self,
        shared: &mut CachedFileShared,
        reply: Reply,
        effects: &mut Vec<Effect>,
    ) -> (r: Turn<usize>)
        requires
            old(self).wf(),
            old(self).awaits(reply),
            old(self).splits(old(shared)@),
            old(shared)@.wf(),
        ensures
            final(self).wf(),
            final(shared)@.wf(),
            ({
                let s = old(self).after(old(shared)@, reply);
                &&& *final(self) == s.next
                &&& final(shared)@ == s.cache
                &&& final(effects)@ == old(effects)@ + s.effects
                &&& r == s.turn
            }),
            r is Ask ==> final(self).state is Evicting,
    {
        proof {
            reveal(Split::after);
        }
        match (self.state, reply) {
            (SplitState::Begin, _) => {
                let ghost m = page_map(shared@.pages);
                match self.file.locate_chunk(shared, self.pn) {
                    (Some(base), _) => {
                        proof {
                            lemma_lookup_map(shared@.pages, base);
                            lemma_chunk_found(m, 0, self.pn as int);
                            assert(m[base].wf());
                        }
                        match shared.touch(base) {
                            Some(huge) => {
                                shared.pop(base);
                                shared.notify(base, huge, PageOperation::Demote, effects);
                                proof {
                                    assert(shared@.notices(base, huge, PageOperation::Demote)
                                        == old(shared)@.notices(base, huge, PageOperation::Demote));
                                }
                                self.base_pn = base;
                                self.huge = huge;
                                self.done = 0;
                                self.go(shared, effects)
                            },
                            None => unreached(),
                        }
                    },
                    (None, _) => unreached(),
                }
            },
            (SplitState::Evicting, _) => {
                match self.eviction.step(shared, reply, effects) {
                    Turn::Ask(request) => Turn::Ask(request),
                    Turn::Finished(Ok(page)) => {
                        effects.push(Effect::FreePage(page));
                        self.place(shared, effects);
                        self.go(shared, effects)
                    },
                    Turn::Finished(Err(e)) => {
                        let out: Option<(u32, PageCache)> = shared.push(
                            self.eviction.pn,
                            self.eviction.page,
                        );
                        free_evicted(out, effects);
                        self.state = SplitState::Over;
                        Turn::Finished(Err(e))
                    },
                }
            },
            _ => unreached(),
        }
    }
}

/// Where the walk for a small page finds a chunk, the page of the chunk is
/// cached and has the size that is found.
pub proof fn lemma_chunk_found(m: Map<u32, PageCache>, at: int, pn: int)
    requires
        0 <= at,
        pn <= u32::MAX,
        chunk_from(m, at, pn).0 is Some,
    ensures
        ({
            let (base, size) = chunk_from(m, at, pn);
            m.dom().contains(base.unwrap()) && m[base.unwrap()].size == size && base.unwrap() <= pn
        }),
    decreases pn - at + 1,
{
    if at > pn || crate::fs::chunks::covers(m, at, pn) {
    } else {
        lemma_chunk_found(m, at + crate::fs::chunks::step(m, at), pn);
    }
}

impl CachedFile {
    /// The split at its start.
    pub open spec fn split_of(self, pn: u32) -> Split {
        let none = PageCache { paddr: 0, dirty: false, size: 0 };
        Split {
            file: self,
            pn,
            state: SplitState::Begin,
            base_pn: 0,
            huge: none,
            done: 0,
            eviction: Eviction { pn: 0, page: none, state: EvictState::Begin },
        }
    }

    /// Splits the cached huge page that has the small page `pn` in it.
    pub fn split_huge_page(&self, pn: u32) -> (r: Split)
        requires
            pn + THP_NR_4K_PAGES <= u32::MAX,
        ensures
            r == self.split_of(pn),
            r.wf(),
    {
        let none: PageCache = PageCache::from_addr(0, 0);
        Split {
            file: *self,
            pn,
            state: SplitState::Begin,
            base_pn: 0,
            huge: none,
            done: 0,
            eviction: Eviction::new(0, none),
        }
    }
}

} // verus!
