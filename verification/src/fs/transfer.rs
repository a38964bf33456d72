//! Reading and writing through the page cache.

use vstd::prelude::*;
use vstd::pervasive::unreached;
use crate::addr::PAGE_SIZE_4K;
use crate::effect::{Effect, Reply, Request, Turn};
use crate::error::VfsError;
use crate::fs::cache::{CacheView, CachedFileShared, MAX_OFFSET};
use crate::fs::cached_file::CachedFile;
use crate::fs::chunks::{offset_from, offset_order};
use crate::fs::fetch::{free_evicted, freed, FetchStep, PageFetch};
use crate::fs::page::PageCache;
use crate::fs::recency::{lemma_lookup_map, lemma_placed, lookup, page_map, placed};

verus! {

/// What a transfer does.
#[derive(Debug, Clone, Copy, PartialEq, Eq, Structural)]
pub enum TransferKind {
    /// Hands bytes of the file out.
    Read,
    /// Takes bytes into the file.
    Write,
    /// Takes bytes in behind the end of the file.
    Append,
}

/// Where a transfer stands.
#[derive(Debug, Clone, Copy, PartialEq, Eq, Structural)]
pub enum TransferState {
    Begin,
    AwaitEnd,
    AwaitLen,
    AwaitGrow,
    Fetching,
    Moving,
    Over,
}

/// A read or a write of the bytes from `start` up to `end`. It goes from chunk
/// to chunk, fetches the page of each, and moves the part of the range that is
/// in it.
#[derive(Debug, Clone, Copy)]
pub struct Transfer {
    pub file: CachedFile,
    pub kind: TransferKind,
    pub start: u64,
    /// The length of the other side's buffer.
    pub remaining: usize,
    pub end: u64,
    pub state: TransferState,
    /// The chunk that is being worked on: its number and its first byte.
    pub pn: u32,
    pub chunk_start: u64,
    pub fetch: PageFetch,
    /// The page of the chunk.
    pub page: PageCache,
    /// The number of bytes moved so far.
    pub moved: usize,
}

/// What a step of a transfer does. The result is the number of bytes moved and
/// the position behind them.
pub struct TransferStep {
    pub next: Transfer,
    pub cache: CacheView,
    pub effects: Seq<Effect>,
    pub turn: Turn<(usize, u64)>,
}

/// The pages after the page for `pn` was marked as written.
pub open spec fn marked(pages: Seq<(u32, PageCache)>, pn: u32) -> Seq<(u32, PageCache)> {
    match lookup(pages, pn) {
        Some(page) => placed(pages, pn, PageCache { dirty: true, ..page }),
        None => pages,
    }
}

/// Marks the page for `pn` as written.
pub fn mark_page(shared: &mut CachedFileShared, pn: u32)
    requires
        old(shared)@.wf(),
    ensures
        final(shared)@.wf(),
        final(shared)@ == old(shared)@.with_pages(marked(old(shared)@.pages, pn)),
{
    proof {
        lemma_lookup_map(shared@.pages, pn);
        if let Some(page) = lookup(shared@.pages, pn) {
            lemma_placed(shared@.pages, pn, PageCache { dirty: true, ..page });
            assert(page_map(shared@.pages).dom().contains(pn));
        }
    }
    if let Some(page) = shared.get_mut(pn) {
        page.mark_dirty();
    }
}

impl Transfer {
    /// The position `at`, moved into the range.
    pub open spec fn clip(self, at: int) -> int {
        if at <= self.start || self.end <= self.start {
            self.start as int
        } else if at <= self.end {
            at
        } else {
            self.end as int
        }
    }

    pub open spec fn wf(self) -> bool {
        match self.state {
            TransferState::Begin => {
                &&& self.kind is Read ==> self.start + self.remaining <= u64::MAX
                &&& self.kind is Write ==> self.start + self.remaining == self.end && self.end
                    <= MAX_OFFSET
                &&& self.moved == 0
            },
            TransferState::AwaitEnd => self.kind is Append && self.moved == 0,
            TransferState::AwaitLen => {
                &&& self.kind is Read ==> self.start + self.remaining <= u64::MAX
                &&& !(self.kind is Read) ==> self.start + self.remaining == self.end && self.end
                    <= MAX_OFFSET
                &&& self.moved == 0
            },
            TransferState::AwaitGrow => self.in_range() && self.moved == 0,
            TransferState::Fetching => {
                &&& self.in_range()
                &&& self.chunk_start < self.end
                &&& self.chunk_start == self.pn * PAGE_SIZE_4K
                &&& self.moved == self.clip(self.chunk_start as int) - self.start
                &&& self.fetch.wf()
                &&& self.fetch.pn == self.pn
            },
            TransferState::Moving => {
                &&& self.in_range()
                &&& self.chunk_start < self.end
                &&& self.chunk_start == self.pn * PAGE_SIZE_4K
                &&& self.moved == self.clip(self.chunk_start as int) - self.start
                &&& self.page.wf()
            },
            TransferState::Over => true,
        }
    }

    /// Whether the range lies in what the page numbers reach and fits the
    /// buffer.
    pub open spec fn in_range(self) -> bool {
        &&& self.start <= self.end <= MAX_OFFSET
        &&& self.end <= self.start + self.remaining
    }

    /// Whether the reply can be one to the last request. The part of the file
    /// that is transferred must lie in what the page numbers reach.
    pub open spec fn awaits(self, reply: Reply) -> bool {
        match self.state {
            TransferState::Begin => reply is Start,
            TransferState::AwaitEnd => match reply {
                Reply::Len(len) => len + self.remaining <= MAX_OFFSET,
                _ => reply is Failed,
            },
            TransferState::AwaitLen => match reply {
                Reply::Len(len) => self.kind is Read && self.start < self.read_end(len)
                    ==> self.read_end(len) <= MAX_OFFSET,
                _ => reply is Failed,
            },
            TransferState::AwaitGrow => reply is Done || reply is Failed,
            TransferState::Fetching => self.fetch.awaits(reply),
            TransferState::Moving => reply is Done || reply is Failed,
            TransferState::Over => false,
        }
    }

    /// Where a read ends in a file of `len` bytes.
    pub open spec fn read_end(self, len: u64) -> u64 {
        if self.start + self.remaining < len {
            (self.start + self.remaining) as u64
        } else {
            len
        }
    }

    /// The offset in the page of the first byte of the range, and the number of
    /// bytes of the range in the page.
    pub open spec fn part(self, page: PageCache) -> (int, int) {
        let from = self.clip(self.chunk_start as int);
        let to = self.clip(self.chunk_start + page.size);
        (from - self.chunk_start, to - from)
    }

    pub open spec fn failing(self, cache: CacheView, effects: Seq<Effect>, e: VfsError) -> TransferStep {
        TransferStep {
            next: Transfer { state: TransferState::Over, ..self },
            cache,
            effects,
            turn: Turn::Finished(Err(e)),
        }
    }

    pub open spec fn asking(self, state: TransferState, cache: CacheView, request: Request) -> TransferStep {
        TransferStep {
            next: Transfer { state, ..self },
            cache,
            effects: Seq::empty(),
            turn: Turn::Ask(request),
        }
    }

    /// The request that moves the part of the range that is in the page.
    pub open spec fn moving(self, page: PageCache) -> Request {
        let (off, len) = self.part(page);
        if len == 0 {
            Request::Relax
        } else if self.kind is Read {
            Request::CopyOut { paddr: (page.paddr + off) as usize, len: len as usize }
        } else {
            Request::CopyIn { paddr: (page.paddr + off) as usize, len: len as usize }
        }
    }

    /// The transfer after a step of its fetch.
    pub open spec fn fetching(self, s: FetchStep) -> TransferStep {
        let t = Transfer { state: TransferState::Fetching, fetch: s.next, ..self };
        match s.turn {
            Turn::Ask(request) => TransferStep {
                next: t,
                cache: s.cache,
                effects: s.effects,
                turn: Turn::Ask(request),
            },
            Turn::Finished(Ok(fetched)) => TransferStep {
                next: Transfer { state: TransferState::Moving, page: fetched.page, ..t },
                cache: s.cache,
                effects: s.effects + freed(fetched.evicted),
                turn: Turn::Ask(self.moving(fetched.page)),
            },
            Turn::Finished(Err(e)) => t.failing(s.cache, s.effects, e),
        }
    }

    /// The transfer turns to the next chunk, or ends.
    pub open spec fn entering(self, cache: CacheView) -> TransferStep {
        if self.chunk_start < self.end {
            self.fetching(self.file.fetch_of(self.pn, PAGE_SIZE_4K).after(cache, Reply::Start))
        } else {
            TransferStep {
                next: Transfer { state: TransferState::Over, ..self },
                cache,
                effects: Seq::empty(),
                turn: Turn::Finished(Ok((self.moved, (self.start + self.moved) as u64))),
            }
        }
    }

    /// The transfer turns to the chunk with the first byte of the range.
    pub open spec fn locating(self, cache: CacheView) -> TransferStep {
        let m = page_map(cache.pages);
        let pn = offset_from(m, 0, self.start as int);
        Transfer {
            pn: pn as u32,
            chunk_start: (pn * PAGE_SIZE_4K) as u64,
            ..self
        }.entering(cache.with_pages(offset_order(cache.pages, m, 0, self.start as int)))
    }

    /// The transfer after the page was moved.
    pub open spec fn moved_on(self, cache: CacheView) -> TransferStep {
        let (_, len) = self.part(self.page);
        Transfer {
            moved: (self.moved + len) as usize,
            chunk_start: (self.chunk_start + self.page.size) as u64,
            pn: (self.pn + self.page.size / PAGE_SIZE_4K) as u32,
            ..self
        }.entering(
            if len > 0 && !(self.kind is Read) && !self.file.in_memory {
                cache.with_pages(marked(cache.pages, self.pn))
            } else {
                cache
            },
        )
    }

    /// What the step does.
    pub open spec fn after(self, cache: CacheView, reply: Reply) -> TransferStep {
        match (self.state, reply) {
            (TransferState::Begin, _) => self.asking(
                if self.kind is Append {
                    TransferState::AwaitEnd
                } else {
                    TransferState::AwaitLen
                },
                cache,
                Request::FileLen,
            ),
            (TransferState::Fetching, _) => self.fetching(self.fetch.after(cache, reply)),
            (_, Reply::Failed(e)) => self.failing(cache, Seq::empty(), e),
            (TransferState::AwaitEnd, Reply::Len(len)) => Transfer {
                start: len,
                end: (len + self.remaining) as u64,
                ..self
            }.asking(TransferState::AwaitLen, cache, Request::FileLen),
            (TransferState::AwaitLen, Reply::Len(len)) => if self.kind is Read {
                if self.read_end(len) <= self.start {
                    TransferStep {
                        next: Transfer { state: TransferState::Over, ..self },
                        cache,
                        effects: Seq::empty(),
                        turn: Turn::Finished(Ok((0, self.start))),
                    }
                } else {
                    Transfer { end: self.read_end(len), ..self }.locating(cache)
                }
            } else if self.end > len {
                self.asking(TransferState::AwaitGrow, cache, Request::FileSetLen(self.end))
            } else {
                self.locating(cache)
            },
            (TransferState::AwaitGrow, Reply::Done) => self.locating(cache),
            (TransferState::Moving, Reply::Done) => self.moved_on(cache),
            _ => arbitrary(),
        }
    }

    /// Takes note of a step of the fetch.
    fn step_fetch(
        &mut self,
        shared: &mut CachedFileShared,
        reply: Reply,
        effects: &mut Vec<Effect>,
    ) -> (r: Turn<(usize, u64)>)
        requires
            old(self).in_range(),
            old(self).chunk_start < old(self).end,
            old(self).chunk_start == old(self).pn * PAGE_SIZE_4K,
            old(self).moved == old(self).clip(old(self).chunk_start as int) - old(self).start,
            old(self).fetch.wf(),
            old(self).fetch.pn == old(self).pn,
            old(self).fetch.awaits(reply),
            old(shared)@.wf(),
        ensures
            final(self).wf(),
            final(shared)@.wf(),
            ({
                let s = old(self).fetching(old(self).fetch.after(old(shared)@, reply));
                &&& *final(self) == s.next
                &&& final(shared)@ == s.cache
                &&& final(effects)@ == old(effects)@ + s.effects
                &&& r == s.turn
            }),
    {
        self.state = TransferState::Fetching;
        match self.fetch.step(shared, reply, effects) {
            Turn::Ask(request) => Turn::Ask(request),
            Turn::Finished(Ok(fetched)) => {
                free_evicted(fetched.evicted, effects);
                self.page = fetched.page;
                self.state = TransferState::Moving;
                let chunk_end: u64 = self.chunk_start + self.page.size() as u64;
                let from: u64 = if self.chunk_start < self.start {
                    self.start
                } else {
                    self.chunk_start
                };
                let to: u64 = if chunk_end < self.end {
                    chunk_end
                } else {
                    self.end
                };
                if from < to {
                    let paddr: usize = self.page.paddr() + (from - self.chunk_start) as usize;
                    let len: usize = (to - from) as usize;
                    match self.kind {
                        TransferKind::Read => Turn::Ask(Request::CopyOut { paddr, len }),
                        _ => Turn::Ask(Request::CopyIn { paddr, len }),
                    }
                } else {
                    Turn::Ask(Request::Relax)
                }
            },
            Turn::Finished(Err(e)) => {
                self.state = TransferState::Over;
                Turn::Finished(Err(e))
            },
        }
    }

    /// Turns to the next chunk, or ends.
    fn enter(&mut self, shared: &mut CachedFileShared, effects: &mut Vec<Effect>) -> (r: Turn<
        (usize, u64),
    >)
        requires
            old(self).in_range(),
            old(self).chunk_start == old(self).pn * PAGE_SIZE_4K || old(self).chunk_start
                >= old(self).end,
            old(self).moved == old(self).clip(old(self).chunk_start as int) - old(self).start,
            old(shared)@.wf(),
        ensures
            final(self).wf(),
            final(shared)@.wf(),
            ({
                let s = old(self).entering(old(shared)@);
                &&& *final(self) == s.next
                &&& final(shared)@ == s.cache
                &&& final(effects)@ == old(effects)@ + s.effects
                &&& r == s.turn
            }),
    {
        if self.chunk_start < self.end {
            self.fetch = self.file.with_page_or_insert(self.pn, PAGE_SIZE_4K);
            self.step_fetch(shared, Reply::Start, effects)
        } else {
            self.state = TransferState::Over;
            Turn::Finished(Ok((self.moved, self.start + self.moved as u64)))
        }
    }

    /// Turns to the chunk with the first byte of the range.
    fn locate(&mut self, shared: &mut CachedFileShared, effects: &mut Vec<Effect>) -> (r: Turn<
        (usize, u64),
    >)
        requires
            old(self).in_range(),
            old(self).moved == 0,
            old(shared)@.wf(),
        ensures
            final(self).wf(),
            final(shared)@.wf(),
            ({
                let s = old(self).locating(old(shared)@);
                &&& *final(self) == s.next
                &&& final(shared)@ == s.cache
                &&& final(effects)@ == old(effects)@ + s.effects
                &&& r == s.turn
            }),
    {
        let (pn, chunk_start) = self.file.locate_offset(shared, self.start);
        proof {
            crate::fs::chunks::law_located_chunk_has_the_byte(
                page_map(old(shared)@.pages),
                self.start as int,
            );
        }
        self.pn = pn;
        self.chunk_start = chunk_start;
        self.enter(shared, effects)
    }

    /// Goes on with the transfer.
    pub fn step(
        &mut self,
        shared: &mut CachedFileShared,
        reply: Reply,
        effects: &mut Vec<Effect>,
    ) -> (r: Turn<(usize, u64)>)
        requires
            old(self).wf(),
            old(self).awaits(reply),
            old(shared)@.wf(),
        ensures
            final(self).wf(),
            final(shared)@.wf(),
            ({
                let s = old(self).after(old(shared)@, reply);
                &&& *final(self) == s.next
                &&& final(shared)@ == s.cache
                &&& final(effects)@ == old(effects)@ + s.effects
                &&& r == s.turn
            }),
    {
        match (self.state, reply) {
            (TransferState::Begin, _) => {
                self.state = match self.kind {
                    TransferKind::Append => TransferState::AwaitEnd,
                    _ => TransferState::AwaitLen,
                };
                Turn::Ask(Request::FileLen)
            },
            (TransferState::Fetching, _) => self.step_fetch(shared, reply, effects),
            (_, Reply::Failed(e)) => {
                self.state = TransferState::Over;
                Turn::Finished(Err(e))
            },
            (TransferState::AwaitEnd, Reply::Len(len)) => {
                self.start = len;
                self.end = len + self.remaining as u64;
                self.state = TransferState::AwaitLen;
                Turn::Ask(Request::FileLen)
            },
            (TransferState::AwaitLen, Reply::Len(len)) => match self.kind {
                TransferKind::Read => {
                    let full: u64 = self.start + self.remaining as u64;
                    let end: u64 = if full < len {
                        full
                    } else {
                        len
                    };
                    if end <= self.start {
                        self.state = TransferState::Over;
                        Turn::Finished(Ok((0, self.start)))
                    } else {
                        self.end = end;
                        self.locate(shared, effects)
                    }
                },
                _ => {
                    if self.end > len {
                        self.state = TransferState::AwaitGrow;
                        Turn::Ask(Request::FileSetLen(self.end))
                    } else {
                        self.locate(shared, effects)
                    }
                },
            },
            (TransferState::AwaitGrow, Reply::Done) => self.locate(shared, effects),
            (TransferState::Moving, Reply::Done) => {
                let size: usize = self.page.size();
                let chunk_end: u64 = self.chunk_start + size as u64;
                let from: u64 = if self.chunk_start < self.start {
                    self.start
                } else {
                    self.chunk_start
                };
                let to: u64 = if chunk_end < self.end {
                    chunk_end
                } else {
                    self.end
                };
                if from < to {
                    self.moved = self.moved + (to - from) as usize;
                    match self.kind {
                        TransferKind::Read => {},
                        _ => {
                            if !self.file.in_memory() {
                                mark_page(shared, self.pn);
                            }
                        },
                    }
                }
                self.chunk_start = chunk_end;
                self.pn = self.pn + (size / PAGE_SIZE_4K) as u32;
                self.enter(shared, effects)
            },
            _ => unreached(),
        }
    }
}

impl CachedFile {
    /// The transfer at its start.
    pub open spec fn transfer_of(self, kind: TransferKind, start: u64, remaining: usize) -> Transfer {
        Transfer {
            file: self,
            kind,
            start,
            remaining,
            end: if kind is Write {
                (start + remaining) as u64
            } else {
                0
            },
            state: TransferState::Begin,
            pn: 0,
            chunk_start: 0,
            fetch: self.fetch_of(0, PAGE_SIZE_4K),
            page: PageCache { paddr: 0, dirty: false, size: 0 },
            moved: 0,
        }
    }

    fn transfer(&self, kind: TransferKind, start: u64, remaining: usize) -> (r: Transfer)
        requires
            kind is Write ==> start + remaining <= u64::MAX,
        ensures
            r == self.transfer_of(kind, start, remaining),
    {
        Transfer {
            file: *self,
            kind,
            start,
            remaining,
            end: match kind {
                TransferKind::Write => start + remaining as u64,
                _ => 0,
            },
            state: TransferState::Begin,
            pn: 0,
            chunk_start: 0,
            fetch: self.with_page_or_insert(0, PAGE_SIZE_4K),
            page: PageCache::from_addr(0, 0),
            moved: 0,
        }
    }

    /// Reads into a buffer of `remaining` bytes from `offset`, as far as the
    /// file goes.
    pub fn read_at(&self, remaining: usize, offset: u64) -> (r: Transfer)
        requires
            offset + remaining <= u64::MAX,
        ensures
            r == self.transfer_of(TransferKind::Read, offset, remaining),
            r.wf(),
    {
        self.transfer(TransferKind::Read, offset, remaining)
    }

    /// Writes a buffer of `remaining` bytes at `offset`. The file grows where
    /// it is too short.
    pub fn write_at(&self, remaining: usize, offset: u64) -> (r: Transfer)
        requires
            offset + remaining <= MAX_OFFSET,
        ensures
            r == self.transfer_of(TransferKind::Write, offset, remaining),
            r.wf(),
    {
        self.transfer(TransferKind::Write, offset, remaining)
    }

    /// Writes a buffer of `remaining` bytes behind the end of the file.
    pub fn append(&self, remaining: usize) -> (r: Transfer)
        ensures
            r == self.transfer_of(TransferKind::Append, 0, remaining),
            r.wf(),
    {
        self.transfer(TransferKind::Append, 0, remaining)
    }
}

} // verus!
