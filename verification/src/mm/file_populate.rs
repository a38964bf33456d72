//! Bringing a mapped file in.

use vstd::prelude::*;
use vstd::pervasive::unreached;
use crate::addr::{PageSize, VirtAddrRange, PAGE_SIZE_2M, PAGE_SIZE_4K, THP_NR_4K_PAGES};
use crate::effect::{Effect, Reply, Request, Turn};
use crate::error::{AxError, PagingError};
use crate::flags::MappingFlags;
use crate::fs::cache::{CacheView, CachedFileShared};
use crate::fs::chunks::{chunk_from, chunk_order, covers};
use crate::fs::fetch::{free_evicted, freed, FetchStep, PageFetch};
use crate::fs::page::{is_cache_page_size, PageCache};
use crate::fs::recency::{has_key, lemma_lookup_map, lookup, page_map, touched};
use crate::fs::transfer::{mark_page, marked};
use crate::mm::file::FileBackend;
use crate::mm::shared::CacheStep;
use crate::mm::shared_populate::{does_fit_whole, fits_whole, table_size};

verus! {

/// Where a population stands.
#[derive(Debug, Clone, Copy, PartialEq, Eq, Structural)]
pub enum FilePopulateState {
    Begin,
    AwaitLen,
    AwaitEntry,
    AwaitRemap,
    Fetching,
    AwaitMap,
    Over,
}

/// The population of a range of a mapped file. A page that is not there is
/// fetched into the cache and mapped, a huge one as a whole where the range has
/// room for it; unless the file has no device, it may not be written at first. A
/// page that is to be written but may not be is made writable and marked as
/// written. Any other page that is there stays as it is. The pages that satisfy
/// the access in the end are counted.
#[derive(Debug)]
pub struct FilePopulate {
    pub backend: FileBackend,
    pub range: VirtAddrRange,
    pub flags: MappingFlags,
    pub access_flags: MappingFlags,
    pub state: FilePopulateState,
    pub va: usize,
    /// How many pages satisfy the access so far.
    pub pages: usize,
    /// The number of the small page at the address.
    pub pn: u32,
    /// The cached page that is mapped next: its first small page and its size.
    pub base_pn: u32,
    pub page_size: usize,
    /// The size of the page that is made writable.
    pub step: PageSize,
    pub fetch: PageFetch,
    /// The page that left for the one that is being mapped.
    pub evicted: Option<(u32, PageCache)>,
    /// The pages that left the cache: they are to be unmapped at the end.
    pub to_be_evicted: Vec<u32>,
}

/// What a population amounts to.
pub struct FilePopulateView {
    pub backend: FileBackend,
    pub range: VirtAddrRange,
    pub flags: MappingFlags,
    pub access_flags: MappingFlags,
    pub state: FilePopulateState,
    pub va: usize,
    pub pages: usize,
    pub pn: u32,
    pub base_pn: u32,
    pub page_size: usize,
    pub step: PageSize,
    pub fetch: PageFetch,
    pub evicted: Option<(u32, PageCache)>,
    pub to_be_evicted: Seq<u32>,
}

impl View for FilePopulate {
    type V = FilePopulateView;

    open spec fn view(&self) -> FilePopulateView {
        FilePopulateView {
            backend: self.backend,
            range: self.range,
            flags: self.flags,
            access_flags: self.access_flags,
            state: self.state,
            va: self.va,
            pages: self.pages,
            pn: self.pn,
            base_pn: self.base_pn,
            page_size: self.page_size,
            step: self.step,
            fetch: self.fetch,
            evicted: self.evicted,
            to_be_evicted: self.to_be_evicted@,
        }
    }
}

impl FilePopulateView {
    pub open spec fn wf(self) -> bool {
        &&& self.backend.inner.has(self.range)
        &&& match self.state {
            FilePopulateState::Begin => self.pages == 0 && self.va == self.range.start,
            FilePopulateState::AwaitLen => self.pages == 0 && self.va == self.range.start,
            FilePopulateState::Over => true,
            _ => {
                &&& self.moving()
                &&& self.va < self.range.end
                &&& self.state is Fetching ==> {
                    &&& self.fetch.wf()
                    &&& !(self.fetch.state is Begin)
                    &&& self.fetch.pn == self.base_pn
                    &&& self.base_pn == self.pn
                    &&& self.page_size == PAGE_SIZE_4K
                }
                &&& self.state is AwaitMap ==> is_cache_page_size(self.page_size)
                &&& self.state is AwaitRemap ==> !(self.step is Size1G)
            },
        }
    }

    /// Whether the page number and the count keep in step with the address.
    pub open spec fn moving(self) -> bool {
        &&& self.range.start <= self.va
        &&& (self.pn - self.backend.inner.page_at(self.range.start as int)) * PAGE_SIZE_4K <= self.va
            - self.range.start
        &&& self.pages <= self.va - self.range.start
    }

    /// Whether a mapped page is to be written but may not be.
    pub open spec fn upgrades(self, flags: MappingFlags) -> bool {
        self.access_flags.writable() && !flags.writable()
    }

    /// Whether the reply can be one to the last request: a page of the mapping is
    /// a small or a huge one, and one that is marked as written is cached.
    pub open spec fn awaits(self, cache: CacheView, reply: Reply) -> bool {
        match self.state {
            FilePopulateState::Begin => reply is Start,
            FilePopulateState::AwaitLen => reply is Len || reply is Failed,
            FilePopulateState::AwaitEntry => match reply {
                Reply::Entry { flags, size, .. } => {
                    &&& !(size is Size1G)
                    &&& self.upgrades(flags) && !self.backend.inner.cache.in_memory ==> has_key(
                        cache.pages,
                        self.pn,
                    )
                },
                _ => reply is Fault,
            },
            FilePopulateState::AwaitRemap | FilePopulateState::AwaitMap => reply is Done || reply is Fault,
            FilePopulateState::Fetching => self.fetch.awaits(reply),
            FilePopulateState::Over => false,
        }
    }

    pub open spec fn ending(
        self,
        cache: CacheView,
        effects: Seq<Effect>,
        result: Result<usize, AxError>,
    ) -> CacheStep<FilePopulateView, usize> {
        CacheStep {
            next: FilePopulateView { state: FilePopulateState::Over, ..self },
            cache,
            effects,
            turn: Turn::Finished(result),
        }
    }

    /// The population turns to the address where it stands.
    pub open spec fn entering(self, cache: CacheView, effects: Seq<Effect>) -> CacheStep<
        FilePopulateView,
        usize,
    > {
        if self.va < self.range.end {
            CacheStep {
                next: FilePopulateView { state: FilePopulateState::AwaitEntry, ..self },
                cache,
                effects,
                turn: Turn::Ask(Request::Query { va: self.va }),
            }
        } else {
            self.ending(cache, effects, Ok(self.pages))
        }
    }

    /// The population behind `bytes` more, those of a page with the given rights:
    /// it counts if it satisfies the access.
    pub open spec fn behind(self, bytes: int, flags: MappingFlags) -> FilePopulateView {
        FilePopulateView {
            va: (self.va + bytes) as usize,
            pn: (self.pn + bytes / PAGE_SIZE_4K as int) as u32,
            pages: if flags.contains(self.access_flags) {
                (self.pages + 1) as usize
            } else {
                self.pages
            },
            ..self
        }
    }

    /// The number of bytes up to the end of the page around the address.
    pub open spec fn rest(self, size: PageSize) -> int {
        size.bytes() - self.va as int % size.bytes() as int
    }

    /// The rights with which a page is mapped at first.
    pub open spec fn map_flags(self) -> MappingFlags {
        if self.backend.inner.cache.in_memory {
            self.flags
        } else {
            self.flags.read_only()
        }
    }

    /// The request that maps the page, or the small page in it.
    pub open spec fn mapping(self, page: PageCache) -> Request {
        if fits_whole(self.range, self.va, self.page_size) {
            Request::MapPage {
                va: self.va,
                paddr: page.paddr,
                size: table_size(self.page_size),
                flags: self.map_flags(),
            }
        } else {
            Request::MapPage {
                va: self.va,
                paddr: (page.paddr + (self.pn - self.base_pn) * PAGE_SIZE_4K) as usize,
                size: PageSize::Size4K,
                flags: self.map_flags(),
            }
        }
    }

    /// The population behind the page that was mapped.
    pub open spec fn mapped(self) -> FilePopulateView {
        if fits_whole(self.range, self.va, self.page_size) {
            self.behind(self.page_size as int, self.map_flags())
        } else {
            self.behind(PAGE_SIZE_4K as int, self.map_flags())
        }
    }

    /// The population after a step of the fetch.
    pub open spec fn fetching(self, s: FetchStep) -> CacheStep<FilePopulateView, usize> {
        let t = FilePopulateView { fetch: s.next, state: FilePopulateState::Fetching, ..self };
        match s.turn {
            Turn::Ask(request) => CacheStep {
                next: t,
                cache: s.cache,
                effects: s.effects,
                turn: Turn::Ask(request),
            },
            Turn::Finished(Ok(fetched)) => CacheStep {
                next: FilePopulateView {
                    state: FilePopulateState::AwaitMap,
                    evicted: fetched.evicted,
                    to_be_evicted: match fetched.evicted {
                        Some(entry) => self.to_be_evicted.push(entry.0),
                        None => self.to_be_evicted,
                    },
                    ..t
                },
                cache: s.cache,
                effects: s.effects,
                turn: Turn::Ask(self.mapping(fetched.page)),
            },
            Turn::Finished(Err(e)) => t.ending(s.cache, s.effects, Err(e)),
        }
    }

    /// The population seeks the cached page with the small page at the address in
    /// it.
    pub open spec fn seeking(self, cache: CacheView) -> CacheStep<FilePopulateView, usize> {
        let m = page_map(cache.pages);
        let (base, size) = chunk_from(m, 0, self.pn as int);
        let c = cache.with_pages(chunk_order(cache.pages, m, 0, self.pn as int));
        let base_pn = match base {
            Some(pn) => pn,
            None => self.pn,
        };
        FilePopulateView { base_pn, page_size: size, ..self }.fetching(
            self.backend.inner.cache.fetch_of(base_pn, size).after(c, Reply::Start),
        )
    }

    /// What the step does.
    #[verifier::opaque]
    pub open spec fn after(self, cache: CacheView, reply: Reply) -> CacheStep<
        FilePopulateView,
        usize,
    > {
        let inner = self.backend.inner;
        match (self.state, reply) {
            (FilePopulateState::Begin, _) => if self.range.aligned_to(PageSize::Size4K) {
                CacheStep {
                    next: FilePopulateView { state: FilePopulateState::AwaitLen, ..self },
                    cache,
                    effects: Seq::empty(),
                    turn: Turn::Ask(Request::FileLen),
                }
            } else {
                self.ending(cache, Seq::empty(), Err(AxError::InvalidInput))
            },
            (FilePopulateState::AwaitLen, Reply::Len(len)) => if self.range.start - inner.start
                >= len {
                self.ending(cache, Seq::empty(), Err(AxError::BadAddress))
            } else {
                FilePopulateView {
                    pn: inner.page_at(self.range.start as int) as u32,
                    ..self
                }.entering(cache, Seq::empty())
            },
            (FilePopulateState::Fetching, _) => self.fetching(self.fetch.after(cache, reply)),
            (FilePopulateState::AwaitEntry, Reply::Entry { paddr, flags, size }) => if self.upgrades(
                flags,
            ) {
                CacheStep {
                    next: FilePopulateView {
                        state: FilePopulateState::AwaitRemap,
                        step: size,
                        ..self
                    },
                    cache: cache.with_pages(
                        if inner.cache.in_memory {
                            touched(cache.pages, self.pn)
                        } else {
                            marked(cache.pages, self.pn)
                        },
                    ),
                    effects: Seq::empty(),
                    turn: Turn::Ask(Request::Remap { va: self.va, paddr, flags: self.flags }),
                }
            } else {
                self.behind(self.rest(size), flags).entering(cache, Seq::empty())
            },
            (FilePopulateState::AwaitEntry, Reply::Fault(PagingError::NotMapped)) => self.seeking(
                cache,
            ),
            (FilePopulateState::AwaitEntry, _) => self.ending(
                cache,
                Seq::empty(),
                Err(AxError::BadAddress),
            ),
            (FilePopulateState::AwaitRemap, Reply::Done) => self.behind(
                self.rest(self.step),
                self.flags,
            ).entering(cache, Seq::empty()),
            (FilePopulateState::AwaitMap, Reply::Done) => self.mapped().entering(
                cache,
                freed(self.evicted),
            ),
            (FilePopulateState::AwaitMap, Reply::Fault(e)) => self.ending(
                cache,
                freed(self.evicted),
                Err(e.into_error()),
            ),
            (_, Reply::Failed(e)) => self.ending(cache, Seq::empty(), Err(e)),
            (_, Reply::Fault(e)) => self.ending(cache, Seq::empty(), Err(e.into_error())),
            _ => arbitrary(),
        }
    }
}

impl FilePopulate {
    /// Turns to the address where it stands.
    fn enter(&mut self) -> (r: Turn<usize>)
        requires
            old(self).backend.inner.has(old(self).range),
            old(self)@.moving(),
        ensures
            final(self)@.wf(),
            forall|cache: CacheView, effects: Seq<Effect>|
                ({
                    let s = #[trigger] old(self)@.entering(cache, effects);
                    &&& final(self)@ == s.next
                    &&& s.cache == cache
                    &&& s.effects == effects
                    &&& r == s.turn
                }),
    {
        if self.va < self.range.end {
            self.state = FilePopulateState::AwaitEntry;
            Turn::Ask(Request::Query { va: self.va })
        } else {
            self.state = FilePopulateState::Over;
            Turn::Finished(Ok(self.pages))
        }
    }

    /// Goes behind the page of the given size and rights around the address.
    fn pass(&mut self, size: PageSize, flags: MappingFlags)
        requires
            old(self).backend.inner.has(old(self).range),
            old(self)@.moving(),
            old(self).va < old(self).range.end,
            !(size is Size1G),
        ensures
            final(self)@ == old(self)@.behind(old(self)@.rest(size), flags),
            final(self)@.moving(),
    {
        let base_va: usize = memory_addr::align_down(self.va, size.bytes());
        let bytes: usize = size.bytes() - (self.va - base_va);
        self.go_behind(bytes, flags);
    }

    /// Goes behind `bytes` more, those of a page with the given rights.
    fn go_behind(&mut self, bytes: usize, flags: MappingFlags)
        requires
            old(self).backend.inner.has(old(self).range),
            old(self)@.moving(),
            old(self).va < old(self).range.end,
            0 < bytes <= PAGE_SIZE_2M,
        ensures
            final(self)@ == old(self)@.behind(bytes as int, flags),
            final(self)@.moving(),
    {
        self.va = self.va + bytes;
        self.pn = self.pn + bytes as u32 / PAGE_SIZE_4K as u32;
        if flags.contains(self.access_flags) {
            self.pages = self.pages + 1;
        }
    }

    /// The rights with which a page is mapped at first.
    fn first_flags(&self) -> (r: MappingFlags)
        ensures
            r == self@.map_flags(),
    {
        if self.backend.inner.cache.in_memory() {
            self.flags
        } else {
            self.flags.read_only()
        }
    }

    /// Takes note of a step of the fetch.
    fn step_fetch(&mut self, shared: &mut CachedFileShared, reply: Reply, effects: &mut Vec<Effect>) -> (r:
        Turn<usize>)
        requires
            old(self).backend.inner.has(old(self).range),
            old(self)@.moving(),
            old(self).va < old(self).range.end,
            old(self).fetch.wf(),
            old(self).fetch.pn == old(self).base_pn,
            old(self).fetch.awaits(reply),
            old(shared)@.wf(),
            old(self).base_pn <= old(self).pn,
            is_cache_page_size(old(self).page_size),
            old(self).fetch.state is Begin && lookup(old(shared)@.pages, old(self).base_pn) is Some
                ==> ({
                let page = lookup(old(shared)@.pages, old(self).base_pn).unwrap();
                (old(self).pn - old(self).base_pn) * PAGE_SIZE_4K < page.size
            }),
            !(old(self).fetch.state is Begin && lookup(old(shared)@.pages, old(self).base_pn) is Some)
                ==> old(self).base_pn == old(self).pn && old(self).page_size == PAGE_SIZE_4K,
        ensures
            final(self)@.wf(),
            final(shared)@.wf(),
            ({
                let s = old(self)@.fetching(old(self).fetch.after(old(shared)@, reply));
                &&& final(self)@ == s.next
                &&& final(shared)@ == s.cache
                &&& final(effects)@ == old(effects)@ + s.effects
                &&& r == s.turn
            }),
    {
        proof {
            reveal(PageFetch::after);
        }
        self.state = FilePopulateState::Fetching;
        match self.fetch.step(shared, reply, effects) {
            Turn::Ask(request) => Turn::Ask(request),
            Turn::Finished(Ok(fetched)) => {
                self.evicted = fetched.evicted;
                if let Some(entry) = fetched.evicted {
                    self.to_be_evicted.push(entry.0);
                }
                self.state = FilePopulateState::AwaitMap;
                let flags: MappingFlags = self.first_flags();
                if does_fit_whole(self.range, self.va, self.page_size) {
                    let size: PageSize = if self.page_size == PAGE_SIZE_4K {
                        PageSize::Size4K
                    } else {
                        PageSize::Size2M
                    };
                    Turn::Ask(
                        Request::MapPage {
                            va: self.va,
                            paddr: fetched.page.paddr(),
                            size,
                            flags,
                        },
                    )
                } else {
                    let paddr: usize = fetched.page.paddr() + (self.pn - self.base_pn) as usize
                        * PAGE_SIZE_4K;
                    Turn::Ask(
                        Request::MapPage { va: self.va, paddr, size: PageSize::Size4K, flags },
                    )
                }
            },
            Turn::Finished(Err(e)) => {
                self.state = FilePopulateState::Over;
                Turn::Finished(Err(e))
            },
        }
    }

    /// Seeks the cached page with the small page at the address in it.
    fn seek(&mut self, shared: &mut CachedFileShared, effects: &mut Vec<Effect>) -> (r: Turn<usize>)
        requires
            old(self).backend.inner.has(old(self).range),
            old(self)@.moving(),
            old(self).va < old(self).range.end,
            old(shared)@.wf(),
        ensures
            final(self)@.wf(),
            final(shared)@.wf(),
            ({
                let s = old(self)@.seeking(old(shared)@);
                &&& final(self)@ == s.next
                &&& final(shared)@ == s.cache
                &&& final(effects)@ == old(effects)@ + s.effects
                &&& r == s.turn
            }),
    {
        proof {
            reveal(PageFetch::after);
        }
        let ghost m = page_map(shared@.pages);
        let (base, size) = self.backend.inner.cache.locate_chunk(shared, self.pn);
        proof {
            lemma_chunk_covers(m, 0, self.pn as int);
            lemma_lookup_map(shared@.pages, self.pn);
            if let Some(pn) = base {
                lemma_lookup_map(shared@.pages, pn);
                assert(m[pn].wf());
            }
        }
        match base {
            Some(pn) => {
                self.base_pn = pn;
            },
            None => {
                self.base_pn = self.pn;
            },
        }
        self.page_size = size;
        self.fetch = self.backend.inner.cache.with_page_or_insert(self.base_pn, size);
        self.step_fetch(shared, Reply::Start, effects)
    }

    /// Goes on with the population.
    pub fn step(&mut self, shared: &mut CachedFileShared, reply: Reply, effects: &mut Vec<Effect>) -> (r:
        Turn<usize>)
        requires
            old(self)@.wf(),
            old(self)@.awaits(old(shared)@, reply),
            old(shared)@.wf(),
        ensures
            final(self)@.wf(),
            final(shared)@.wf(),
            ({
                let s = old(self)@.after(old(shared)@, reply);
                &&& final(self)@ == s.next
                &&& final(shared)@ == s.cache
                &&& final(effects)@ == old(effects)@ + s.effects
                &&& r == s.turn
            }),
    {
        reveal(FilePopulateView::after);
        match (self.state, reply) {
            (FilePopulateState::Begin, _) => {
                if self.range.is_aligned_to(PageSize::Size4K) {
                    self.state = FilePopulateState::AwaitLen;
                    Turn::Ask(Request::FileLen)
                } else {
                    self.state = FilePopulateState::Over;
                    Turn::Finished(Err(AxError::InvalidInput))
                }
            },
            (FilePopulateState::AwaitLen, Reply::Len(len)) => {
                let offset: usize = self.range.start - self.backend.inner.start;
                if offset as u64 >= len {
                    self.state = FilePopulateState::Over;
                    Turn::Finished(Err(AxError::BadAddress))
                } else {
                    self.pn = (offset / PAGE_SIZE_4K) as u32 + self.backend.inner.offset_page;
                    self.enter()
                }
            },
            (FilePopulateState::Fetching, _) => self.step_fetch(shared, reply, effects),
            (FilePopulateState::AwaitEntry, Reply::Entry { paddr, flags, size }) => {
                if self.access_flags.writable() && !flags.writable() {
                    if self.backend.inner.cache.in_memory() {
                        shared.touch(self.pn);
                    } else {
                        mark_page(shared, self.pn);
                    }
                    self.step = size;
                    self.state = FilePopulateState::AwaitRemap;
                    Turn::Ask(Request::Remap { va: self.va, paddr, flags: self.flags })
                } else {
                    self.pass(size, flags);
                    self.enter()
                }
            },
            (FilePopulateState::AwaitEntry, Reply::Fault(PagingError::NotMapped)) => self.seek(
                shared,
                effects,
            ),
            (FilePopulateState::AwaitEntry, _) => {
                self.state = FilePopulateState::Over;
                Turn::Finished(Err(AxError::BadAddress))
            },
            (FilePopulateState::AwaitRemap, Reply::Done) => {
                self.pass(self.step, self.flags);
                self.enter()
            },
            (FilePopulateState::AwaitMap, Reply::Done) => {
                free_evicted(self.evicted, effects);
                let flags: MappingFlags = self.first_flags();
                if does_fit_whole(self.range, self.va, self.page_size) {
                    self.go_behind(self.page_size, flags);
                } else {
                    self.go_behind(PAGE_SIZE_4K, flags);
                }
                self.enter()
            },
            (FilePopulateState::AwaitMap, Reply::Fault(e)) => {
                free_evicted(self.evicted, effects);
                self.state = FilePopulateState::Over;
                Turn::Finished(Err(e.into_error()))
            },
            (_, Reply::Failed(e)) => {
                self.state = FilePopulateState::Over;
                Turn::Finished(Err(e))
            },
            (_, Reply::Fault(e)) => {
                self.state = FilePopulateState::Over;
                Turn::Finished(Err(e.into_error()))
            },
            _ => unreached(),
        }
    }
}

/// The chunk that the walk for a small page finds has it in it; where it finds
/// none, no page is cached for that number.
pub proof fn lemma_chunk_covers(m: Map<u32, PageCache>, at: int, pn: int)
    requires
        0 <= at <= pn + THP_NR_4K_PAGES,
        pn + THP_NR_4K_PAGES <= u32::MAX,
        crate::fs::cache::pages_ok(m),
    ensures
        match chunk_from(m, at, pn).0 {
            Some(base) => {
                &&& covers(m, base as int, pn)
                &&& base <= pn
                &&& chunk_from(m, at, pn).1 == m[base].size
            },
            None => chunk_from(m, at, pn).1 == PAGE_SIZE_4K,
        },
    decreases pn - at + 1,
{
    if at > pn || covers(m, at, pn) {
    } else {
        lemma_chunk_covers(m, at + crate::fs::chunks::step(m, at), pn);
    }
}

impl FileBackend {
    /// The population at its start.
    pub open spec fn populate_of(
        self,
        range: VirtAddrRange,
        flags: MappingFlags,
        access_flags: MappingFlags,
    ) -> FilePopulateView {
        FilePopulateView {
            backend: self,
            range,
            flags,
            access_flags,
            state: FilePopulateState::Begin,
            va: range.start,
            pages: 0,
            pn: 0,
            base_pn: 0,
            page_size: PAGE_SIZE_4K,
            step: PageSize::Size4K,
            fetch: self.inner.cache.fetch_of(0, PAGE_SIZE_4K),
            evicted: None,
            to_be_evicted: Seq::empty(),
        }
    }

    /// Populates a range with the rights `flags` so that its pages satisfy
    /// `access_flags`.
    pub fn populate(
        &self,
        range: VirtAddrRange,
        flags: MappingFlags,
        access_flags: MappingFlags,
    ) -> (r: FilePopulate)
        requires
            self.inner.has(range),
        ensures
            r@ == self.populate_of(range, flags, access_flags),
            r@.wf(),
    {
        FilePopulate {
            backend: *self,
            range,
            flags,
            access_flags,
            state: FilePopulateState::Begin,
            va: range.start,
            pages: 0,
            pn: 0,
            base_pn: 0,
            page_size: PAGE_SIZE_4K,
            step: PageSize::Size4K,
            fetch: self.inner.cache.with_page_or_insert(0, PAGE_SIZE_4K),
            evicted: None,
            to_be_evicted: Vec::new(),
        }
    }
}

} // verus!
