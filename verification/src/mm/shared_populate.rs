//! Bringing shared memory in.

use vstd::prelude::*;
use vstd::pervasive::unreached;
use crate::addr::{PageSize, VirtAddrRange, PAGE_SIZE_2M, PAGE_SIZE_4K};
use crate::effect::{Effect, Reply, Request, Turn};
use crate::error::{AxError, PagingError};
use crate::flags::MappingFlags;
use crate::fs::cache::{CacheView, CachedFileShared};
use crate::fs::chunks::{chunk_from, chunk_order};
use crate::fs::fetch::{free_evicted, freed, FetchStep, PageFetch};
use crate::fs::page::{is_cache_page_size, PageCache};
use crate::fs::recency::{lemma_lookup_map, lookup, page_map};
use crate::mm::file_populate::lemma_chunk_covers;
use crate::mm::shared::{in_mapping, page_number, CacheStep, SharedBackend};

verus! {

/// Where a population stands.
#[derive(Debug, Clone, Copy, PartialEq, Eq, Structural)]
pub enum PopulateState {
    Begin,
    AwaitEntry,
    Fetching,
    AwaitMap,
    Over,
}

/// The population of a range of shared memory: the pages that are not there are
/// fetched into the cache and mapped, a huge one as a whole where the range has
/// room for it. The pages that satisfy the access in the end are counted.
#[derive(Debug, Clone, Copy)]
pub struct SharedPopulate {
    pub backend: SharedBackend,
    pub range: VirtAddrRange,
    pub flags: MappingFlags,
    pub access_flags: MappingFlags,
    pub state: PopulateState,
    pub va: usize,
    /// How many pages satisfy the access so far.
    pub pages: usize,
    /// The number of the small page at the address.
    pub pn: u32,
    /// The cached page that is mapped next: its first small page and its size.
    pub base_pn: u32,
    pub page_size: usize,
    pub fetch: PageFetch,
    /// The page that left for the one that is being mapped.
    pub evicted: Option<(u32, PageCache)>,
}

/// Whether a page of `size` bytes can be mapped as a whole at an address of a
/// range.
pub open spec fn fits_whole(range: VirtAddrRange, va: usize, size: usize) -> bool {
    va as int % size as int == 0 && range.start <= va && range.end - va >= size
}

/// Whether a page of `size` bytes can be mapped as a whole at an address of a
/// range.
pub fn does_fit_whole(range: VirtAddrRange, va: usize, size: usize) -> (r: bool)
    requires
        size == PAGE_SIZE_4K || size == PAGE_SIZE_2M,
    ensures
        r == fits_whole(range, va, size),
{
    crate::addr::is_aligned(va, size) && range.contains(va) && range.end - va >= size
}

/// The size in the page table of a cached page.
pub open spec fn table_size(size: usize) -> PageSize {
    if size == PAGE_SIZE_4K {
        PageSize::Size4K
    } else {
        PageSize::Size2M
    }
}

impl SharedPopulate {
    pub open spec fn wf(self) -> bool {
        &&& in_mapping(self.backend.inner.start, self.range)
        &&& match self.state {
            PopulateState::Begin => self.va == self.range.start && self.pages == 0,
            PopulateState::Over => true,
            _ => {
                &&& self.moving()
                &&& self.va < self.range.end
                &&& self.state is Fetching ==> {
                    &&& self.fetch.wf()
                    &&& !(self.fetch.state is Begin)
                    &&& self.fetch.pn == self.base_pn
                    &&& self.base_pn == self.pn
                    &&& self.page_size == PAGE_SIZE_4K
                }
                &&& self.state is AwaitMap ==> is_cache_page_size(self.page_size)
            },
        }
    }

    /// Whether the page number and the count keep in step with the address.
    pub open spec fn moving(self) -> bool {
        &&& self.range.start <= self.va
        &&& (self.pn - page_number(self.backend.inner.start, self.range.start as int)) * PAGE_SIZE_4K
            <= self.va - self.range.start
        &&& self.pages <= self.va - self.range.start
    }

    /// Whether the reply can be one to the last request: a page of the mapping is
    /// a small or a huge one.
    pub open spec fn awaits(self, reply: Reply) -> bool {
        match self.state {
            PopulateState::Begin => reply is Start,
            PopulateState::AwaitEntry => match reply {
                Reply::Entry { size, .. } => !(size is Size1G),
                _ => reply is Fault,
            },
            PopulateState::Fetching => self.fetch.awaits(reply),
            PopulateState::AwaitMap => reply is Done || reply is Fault,
            PopulateState::Over => false,
        }
    }

    pub open spec fn ending(
        self,
        cache: CacheView,
        effects: Seq<Effect>,
        result: Result<usize, AxError>,
    ) -> CacheStep<SharedPopulate, usize> {
        CacheStep {
            next: SharedPopulate { state: PopulateState::Over, ..self },
            cache,
            effects,
            turn: Turn::Finished(result),
        }
    }

    /// The population turns to the address where it stands.
    pub open spec fn entering(self, cache: CacheView, effects: Seq<Effect>) -> CacheStep<
        SharedPopulate,
        usize,
    > {
        if self.va < self.range.end {
            CacheStep {
                next: SharedPopulate { state: PopulateState::AwaitEntry, ..self },
                cache,
                effects,
                turn: Turn::Ask(Request::Query { va: self.va }),
            }
        } else {
            self.ending(cache, effects, Ok(self.pages))
        }
    }

    /// The population behind `bytes` more, those of a page with the given rights:
    /// it counts if it satisfies the access.
    pub open spec fn behind(self, bytes: int, flags: MappingFlags) -> SharedPopulate {
        SharedPopulate {
            va: (self.va + bytes) as usize,
            pn: (self.pn + bytes / PAGE_SIZE_4K as int) as u32,
            pages: if flags.contains(self.access_flags) {
                (self.pages + 1) as usize
            } else {
                self.pages
            },
            ..self
        }
    }

    /// The number of bytes up to the end of the page around the address.
    pub open spec fn rest(self, size: PageSize) -> int {
        size.bytes() - self.va as int % size.bytes() as int
    }

    /// The population behind a page of the given size and rights that is there
    /// already.
    pub open spec fn passing(self, size: PageSize, flags: MappingFlags) -> SharedPopulate {
        self.behind(self.rest(size), flags)
    }

    /// The population behind the page that was mapped.
    pub open spec fn mapped(self) -> SharedPopulate {
        if fits_whole(self.range, self.va, self.page_size) {
            self.behind(self.page_size as int, self.flags)
        } else {
            self.behind(PAGE_SIZE_4K as int, self.flags)
        }
    }

    /// The request that maps the page, or the small page in it.
    pub open spec fn mapping(self, page: PageCache) -> Request {
        if fits_whole(self.range, self.va, self.page_size) {
            Request::MapPage {
                va: self.va,
                paddr: page.paddr,
                size: table_size(self.page_size),
                flags: self.flags,
            }
        } else {
            Request::MapPage {
                va: self.va,
                paddr: (page.paddr + (self.pn - self.base_pn) * PAGE_SIZE_4K) as usize,
                size: PageSize::Size4K,
                flags: self.flags,
            }
        }
    }

    /// The population after a step of the fetch.
    pub open spec fn fetching(self, s: FetchStep) -> CacheStep<SharedPopulate, usize> {
        let t = SharedPopulate { fetch: s.next, state: PopulateState::Fetching, ..self };
        match s.turn {
            Turn::Ask(request) => CacheStep {
                next: t,
                cache: s.cache,
                effects: s.effects,
                turn: Turn::Ask(request),
            },
            Turn::Finished(Ok(fetched)) => CacheStep {
                next: SharedPopulate {
                    state: PopulateState::AwaitMap,
                    evicted: fetched.evicted,
                    ..t
                },
                cache: s.cache,
                effects: s.effects,
                turn: Turn::Ask(self.mapping(fetched.page)),
            },
            Turn::Finished(Err(e)) => t.ending(s.cache, s.effects, Err(e)),
        }
    }

    /// The population seeks the cached page with the small page at the address in
    /// it.
    pub open spec fn seeking(self, cache: CacheView) -> CacheStep<SharedPopulate, usize> {
        let m = page_map(cache.pages);
        let (base, size) = chunk_from(m, 0, self.pn as int);
        let c = cache.with_pages(chunk_order(cache.pages, m, 0, self.pn as int));
        let base_pn = match base {
            Some(pn) => pn,
            None => self.pn,
        };
        SharedPopulate { base_pn, page_size: size, ..self }.fetching(
            self.backend.inner.cache.fetch_of(base_pn, size).after(c, Reply::Start),
        )
    }

    /// What the step does.
    #[verifier::opaque]
    pub open spec fn after(self, cache: CacheView, reply: Reply) -> CacheStep<SharedPopulate, usize> {
        match (self.state, reply) {
            (PopulateState::Begin, _) => SharedPopulate {
                pn: page_number(self.backend.inner.start, self.range.start as int) as u32,
                ..self
            }.entering(cache, Seq::empty()),
            (PopulateState::Fetching, _) => self.fetching(self.fetch.after(cache, reply)),
            (PopulateState::AwaitEntry, Reply::Entry { paddr: _, flags, size }) => self.passing(
                size,
                flags,
            ).entering(cache, Seq::empty()),
            (PopulateState::AwaitEntry, Reply::Fault(PagingError::NotMapped)) => self.seeking(cache),
            (PopulateState::AwaitEntry, _) => self.ending(
                cache,
                Seq::empty(),
                Err(AxError::BadAddress),
            ),
            (PopulateState::AwaitMap, Reply::Done) => self.mapped().entering(
                cache,
                freed(self.evicted),
            ),
            (PopulateState::AwaitMap, Reply::Fault(e)) => self.ending(
                cache,
                freed(self.evicted),
                Err(e.into_error()),
            ),
            _ => arbitrary(),
        }
    }

    /// Turns to the address where it stands.
    fn enter(&mut self) -> (r: Turn<usize>)
        requires
            in_mapping(old(self).backend.inner.start, old(self).range),
            old(self).moving(),
        ensures
            final(self).wf(),
            forall|cache: CacheView, effects: Seq<Effect>|
                ({
                    let s = #[trigger] old(self).entering(cache, effects);
                    &&& *final(self) == s.next
                    &&& s.cache == cache
                    &&& s.effects == effects
                    &&& r == s.turn
                }),
    {
        if self.va < self.range.end {
            self.state = PopulateState::AwaitEntry;
            Turn::Ask(Request::Query { va: self.va })
        } else {
            self.state = PopulateState::Over;
            Turn::Finished(Ok(self.pages))
        }
    }

    /// Goes behind `bytes` more, those of a page with the given rights.
    fn go_behind(&mut self, bytes: usize, flags: MappingFlags)
        requires
            in_mapping(old(self).backend.inner.start, old(self).range),
            old(self).moving(),
            old(self).va < old(self).range.end,
            0 < bytes <= PAGE_SIZE_2M,
        ensures
            *final(self) == old(self).behind(bytes as int, flags),
            final(self).moving(),
    {
        self.va = self.va + bytes;
        self.pn = self.pn + bytes as u32 / PAGE_SIZE_4K as u32;
        if flags.contains(self.access_flags) {
            self.pages = self.pages + 1;
        }
    }

    /// Takes note of a step of the fetch.
    fn step_fetch(&mut self, shared: &mut CachedFileShared, reply: Reply, effects: &mut Vec<Effect>) -> (r:
        Turn<usize>)
        requires
            in_mapping(old(self).backend.inner.start, old(self).range),
            old(self).moving(),
            old(self).va < old(self).range.end,
            old(self).fetch.wf(),
            old(self).fetch.pn == old(self).base_pn,
            old(self).fetch.awaits(reply),
            old(shared)@.wf(),
            old(self).base_pn <= old(self).pn,
            is_cache_page_size(old(self).page_size),
            old(self).fetch.state is Begin && lookup(old(shared)@.pages, old(self).base_pn) is Some
                ==> ({
                let page = lookup(old(shared)@.pages, old(self).base_pn).unwrap();
                (old(self).pn - old(self).base_pn) * PAGE_SIZE_4K < page.size
            }),
            !(old(self).fetch.state is Begin && lookup(old(shared)@.pages, old(self).base_pn) is Some)
                ==> old(self).base_pn == old(self).pn && old(self).page_size == PAGE_SIZE_4K,
        ensures
            final(self).wf(),
            final(shared)@.wf(),
            ({
                let s = old(self).fetching(old(self).fetch.after(old(shared)@, reply));
                &&& *final(self) == s.next
                &&& final(shared)@ == s.cache
                &&& final(effects)@ == old(effects)@ + s.effects
                &&& r == s.turn
            }),
    {
        proof {
            reveal(PageFetch::after);
        }
        self.state = PopulateState::Fetching;
        match self.fetch.step(shared, reply, effects) {
            Turn::Ask(request) => Turn::Ask(request),
            Turn::Finished(Ok(fetched)) => {
                self.evicted = fetched.evicted;
                self.state = PopulateState::AwaitMap;
                if does_fit_whole(self.range, self.va, self.page_size) {
                    let size: PageSize = if self.page_size == PAGE_SIZE_4K {
                        PageSize::Size4K
                    } else {
                        PageSize::Size2M
                    };
                    Turn::Ask(
                        Request::MapPage {
                            va: self.va,
                            paddr: fetched.page.paddr(),
                            size,
                            flags: self.flags,
                        },
                    )
                } else {
                    let paddr: usize = fetched.page.paddr() + (self.pn - self.base_pn) as usize
                        * PAGE_SIZE_4K;
                    Turn::Ask(
                        Request::MapPage {
                            va: self.va,
                            paddr,
                            size: PageSize::Size4K,
                            flags: self.flags,
                        },
                    )
                }
            },
            Turn::Finished(Err(e)) => {
                self.state = PopulateState::Over;
                Turn::Finished(Err(e))
            },
        }
    }

    /// Seeks the cached page with the small page at the address in it.
    fn seek(&mut self, shared: &mut CachedFileShared, effects: &mut Vec<Effect>) -> (r: Turn<usize>)
        requires
            in_mapping(old(self).backend.inner.start, old(self).range),
            old(self).moving(),
            old(self).va < old(self).range.end,
            old(shared)@.wf(),
        ensures
            final(self).wf(),
            final(shared)@.wf(),
            ({
                let s = old(self).seeking(old(shared)@);
                &&& *final(self) == s.next
                &&& final(shared)@ == s.cache
                &&& final(effects)@ == old(effects)@ + s.effects
                &&& r == s.turn
            }),
    {
        proof {
            reveal(PageFetch::after);
        }
        let ghost m = page_map(shared@.pages);
        let (base, size) = self.backend.inner.cache.locate_chunk(shared, self.pn);
        proof {
            lemma_chunk_covers(m, 0, self.pn as int);
            lemma_lookup_map(shared@.pages, self.pn);
            if let Some(pn) = base {
                lemma_lookup_map(shared@.pages, pn);
                assert(m[pn].wf());
            }
        }
        match base {
            Some(pn) => {
                self.base_pn = pn;
            },
            None => {
                self.base_pn = self.pn;
            },
        }
        self.page_size = size;
        self.fetch = self.backend.inner.cache.with_page_or_insert(self.base_pn, size);
        self.step_fetch(shared, Reply::Start, effects)
    }

    /// Goes on with the population.
    pub fn step(&mut self, shared: &mut CachedFileShared, reply: Reply, effects: &mut Vec<Effect>) -> (r:
        Turn<usize>)
        requires
            old(self).wf(),
            old(self).awaits(reply),
            old(shared)@.wf(),
        ensures
            final(self).wf(),
            final(shared)@.wf(),
            ({
                let s = old(self).after(old(shared)@, reply);
                &&& *final(self) == s.next
                &&& final(shared)@ == s.cache
                &&& final(effects)@ == old(effects)@ + s.effects
                &&& r == s.turn
            }),
    {
        reveal(SharedPopulate::after);
        match (self.state, reply) {
            (PopulateState::Begin, _) => {
                self.pn = ((self.range.start - self.backend.inner.start) / PAGE_SIZE_4K) as u32;
                self.enter()
            },
            (PopulateState::Fetching, _) => self.step_fetch(shared, reply, effects),
            (PopulateState::AwaitEntry, Reply::Entry { paddr: _, flags, size }) => {
                let base_va: usize = memory_addr::align_down(self.va, size.bytes());
                let bytes: usize = size.bytes() - (self.va - base_va);
                self.go_behind(bytes, flags);
                self.enter()
            },
            (PopulateState::AwaitEntry, Reply::Fault(PagingError::NotMapped)) => self.seek(
                shared,
                effects,
            ),
            (PopulateState::AwaitEntry, _) => {
                self.state = PopulateState::Over;
                Turn::Finished(Err(AxError::BadAddress))
            },
            (PopulateState::AwaitMap, Reply::Done) => {
                free_evicted(self.evicted, effects);
                if does_fit_whole(self.range, self.va, self.page_size) {
                    self.go_behind(self.page_size, self.flags);
                } else {
                    self.go_behind(PAGE_SIZE_4K, self.flags);
                }
                self.enter()
            },
            (PopulateState::AwaitMap, Reply::Fault(e)) => {
                free_evicted(self.evicted, effects);
                self.state = PopulateState::Over;
                Turn::Finished(Err(e.into_error()))
            },
            _ => unreached(),
        }
    }
}

impl SharedBackend {
    /// The population at its start.
    pub open spec fn populate_of(
        self,
        range: VirtAddrRange,
        flags: MappingFlags,
        access_flags: MappingFlags,
    ) -> SharedPopulate {
        SharedPopulate {
            backend: self,
            range,
            flags,
            access_flags,
            state: PopulateState::Begin,
            va: range.start,
            pages: 0,
            pn: 0,
            base_pn: 0,
            page_size: PAGE_SIZE_4K,
            fetch: self.inner.cache.fetch_of(0, PAGE_SIZE_4K),
            evicted: None,
        }
    }

    /// Populates a range with the rights `flags` so that its pages satisfy
    /// `access_flags`.
    pub fn populate(
        &self,
        range: VirtAddrRange,
        flags: MappingFlags,
        access_flags: MappingFlags,
    ) -> (r: SharedPopulate)
        requires
            in_mapping(self.inner.start, range),
        ensures
            r == self.populate_of(range, flags, access_flags),
            r.wf(),
    {
        SharedPopulate {
            backend: *self,
            range,
            flags,
            access_flags,
            state: PopulateState::Begin,
            va: range.start,
            pages: 0,
            pn: 0,
            base_pn: 0,
            page_size: PAGE_SIZE_4K,
            fetch: self.inner.cache.with_page_or_insert(0, PAGE_SIZE_4K),
            evicted: None,
        }
    }
}

} // verus!
