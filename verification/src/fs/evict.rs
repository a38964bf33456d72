//! Taking a page out of the cache.

use vstd::prelude::*;
use vstd::pervasive::unreached;
use crate::addr::PAGE_SIZE_4K;
use crate::effect::{Effect, Reply, Request, Turn};
use crate::fs::cache::{CacheView, CachedFileShared};
use crate::fs::page::{PageCache, PageOperation};

verus! {

/// The offset in the file of the first byte of the page `pn`.
pub open spec fn page_start(pn: u32) -> int {
    pn * PAGE_SIZE_4K
}

/// What is written back of a dirty page when the file is `file_len` long: the
/// part of the page that is in the file.
pub open spec fn writeback(pn: u32, page: PageCache, file_len: u64) -> Option<Request> {
    if page_start(pn) < file_len {
        Some(
            Request::FileWrite {
                paddr: page.paddr,
                len: if file_len - page_start(pn) < page.size {
                    (file_len - page_start(pn)) as usize
                } else {
                    page.size
                },
                offset: page_start(pn) as u64,
            },
        )
    } else {
        None
    }
}

/// The page after it was brought in step with the file.
pub open spec fn cleaned(page: PageCache) -> PageCache {
    PageCache { dirty: false, ..page }
}

/// Where an eviction stands.
#[derive(Debug, Clone, Copy, PartialEq, Eq, Structural)]
pub enum EvictState {
    Begin,
    AwaitLen,
    AwaitWrite,
}

/// The eviction of one page that has left the cache: its listeners are told,
/// and if it is dirty it is written back.
#[derive(Debug, Clone, Copy, PartialEq, Eq, Structural)]
pub struct Eviction {
    pub pn: u32,
    pub page: PageCache,
    pub state: EvictState,
}

/// What a step of an eviction does.
pub struct EvictStep {
    pub next: Eviction,
    pub effects: Seq<Effect>,
    pub turn: Turn<PageCache>,
}

impl Eviction {
    /// Whether the reply can be one to the last request.
    pub open spec fn awaits(self, reply: Reply) -> bool {
        match self.state {
            EvictState::Begin => reply is Start,
            EvictState::AwaitLen => reply is Len || reply is Failed,
            EvictState::AwaitWrite => reply is Done || reply is Failed,
        }
    }

    /// What the step does.
    pub open spec fn after(self, cache: CacheView, reply: Reply) -> EvictStep {
        match (self.state, reply) {
            (EvictState::Begin, _) => EvictStep {
                next: if self.page.dirty {
                    Eviction { state: EvictState::AwaitLen, ..self }
                } else {
                    self
                },
                effects: cache.notices(self.pn, self.page, PageOperation::Unmap),
                turn: if self.page.dirty {
                    Turn::Ask(Request::FileLen)
                } else {
                    Turn::Finished(Ok(self.page))
                },
            },
            (EvictState::AwaitLen, Reply::Len(file_len)) => match writeback(
                self.pn,
                self.page,
                file_len,
            ) {
                Some(request) => EvictStep {
                    next: Eviction { state: EvictState::AwaitWrite, ..self },
                    effects: Seq::empty(),
                    turn: Turn::Ask(request),
                },
                None => EvictStep {
                    next: self,
                    effects: Seq::empty(),
                    turn: Turn::Finished(Ok(cleaned(self.page))),
                },
            },
            (EvictState::AwaitWrite, Reply::Done) => EvictStep {
                next: self,
                effects: Seq::empty(),
                turn: Turn::Finished(Ok(cleaned(self.page))),
            },
            (_, Reply::Failed(e)) => EvictStep {
                next: self,
                effects: Seq::empty(),
                turn: Turn::Finished(Err(e)),
            },
            _ => arbitrary(),
        }
    }

    /// The eviction of a page.
    pub fn new(pn: u32, page: PageCache) -> (r: Eviction)
        ensures
            r == (Eviction { pn, page, state: EvictState::Begin }),
    {
        Eviction { pn, page, state: EvictState::Begin }
    }

    /// Goes on with the eviction.
    pub fn step(&mut self, shared: &CachedFileShared, reply: Reply, effects: &mut Vec<Effect>) -> (r:
        Turn<PageCache>)
        requires
            old(self).awaits(reply),
        ensures
            ({
                let s = old(self).after(shared@, reply);
                &&& *final(self) == s.next
                &&& final(effects)@ == old(effects)@ + s.effects
                &&& r == s.turn
            }),
    {
        match (self.state, reply) {
            (EvictState::Begin, _) => {
                shared.notify(self.pn, self.page, PageOperation::Unmap, effects);
                if self.page.is_dirty() {
                    self.state = EvictState::AwaitLen;
                    Turn::Ask(Request::FileLen)
                } else {
                    Turn::Finished(Ok(self.page))
                }
            },
            (EvictState::AwaitLen, Reply::Len(file_len)) => {
                let start: u64 = self.pn as u64 * PAGE_SIZE_4K as u64;
                if start < file_len {
                    let rest: u64 = file_len - start;
                    let len: usize = if rest < self.page.size() as u64 {
                        rest as usize
                    } else {
                        self.page.size()
                    };
                    self.state = EvictState::AwaitWrite;
                    Turn::Ask(Request::FileWrite { paddr: self.page.paddr(), len, offset: start })
                } else {
                    Turn::Finished(Ok(PageCache { dirty: false, ..self.page }))
                }
            },
            (EvictState::AwaitWrite, Reply::Done) => {
                Turn::Finished(Ok(PageCache { dirty: false, ..self.page }))
            },
            (_, Reply::Failed(e)) => Turn::Finished(Err(e)),
            _ => unreached(),
        }
    }
}

} // verus!
