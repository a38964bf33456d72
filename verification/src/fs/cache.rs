//! The page cache of a file.

use vstd::prelude::*;
use lru::LruCache;
use crate::effect::Effect;
use crate::fs::page::{PageCache, PageOperation};
use crate::fs::recency::{
    displaced, distinct, has_key, lemma_drop_last, lemma_pushed, lemma_touched, lemma_without,
    lookup, lru_cap, lru_contains, lru_entries, lru_get_mut, lru_keys, lru_len, lru_limit, lru_new,
    lru_pop, lru_pop_lru, lru_push, lru_unbounded, page_map, placed, pushed, touched, without,
};

verus! {

/// The greatest offset in a file whose page has a number.
pub const MAX_OFFSET: u64 = 17_592_183_947_264;

/// What a page cache amounts to.
pub struct CacheView {
    /// The cached pages by number, the most recently used first.
    pub pages: Seq<(u32, PageCache)>,
    /// How many pages there may be.
    pub cap: nat,
    /// The handles of those who want to hear of pages that leave.
    pub listeners: Seq<usize>,
    /// Whether the file has no device behind it.
    pub in_memory: bool,
}

impl CacheView {
    /// No page occurs twice, there is room for one, no more are held than may
    /// be, and each is well-formed.
    pub open spec fn wf(self) -> bool {
        &&& distinct(self.pages)
        &&& 0 < self.cap
        &&& self.pages.len() <= self.cap
        &&& pages_ok(page_map(self.pages))
    }

    /// The same cache with other pages.
    pub open spec fn with_pages(self, pages: Seq<(u32, PageCache)>) -> CacheView {
        CacheView { pages, ..self }
    }

    /// Whether a new page needs an old one to leave.
    pub open spec fn full(self) -> bool {
        self.pages.len() == self.cap
    }

    /// What the listeners are told about a page.
    pub open spec fn notices(self, pn: u32, page: PageCache, op: PageOperation) -> Seq<Effect> {
        self.listeners.map_values(
            |listener: usize| Effect::Notify { listener, pn, page, op },
        )
    }
}

/// Whether every page is well-formed.
pub open spec fn pages_ok(m: Map<u32, PageCache>) -> bool {
    forall|pn: u32| #[trigger] m.dom().contains(pn) ==> m[pn].wf()
}

/// The state of a page cache, shared by all who have the file open.
pub struct CachedFileShared {
    page_cache: LruCache<u32, PageCache>,
    evict_listeners: Vec<usize>,
    in_memory: bool,
}

impl View for CachedFileShared {
    type V = CacheView;

    closed spec fn view(&self) -> CacheView {
        CacheView {
            pages: lru_entries(self.page_cache),
            cap: lru_cap(self.page_cache),
            listeners: self.evict_listeners@,
            in_memory: self.in_memory,
        }
    }
}

/// The pages that a cache with a device behind it may hold.
pub const CACHE_LIMIT: usize = 256;

impl CachedFileShared {
    /// An empty cache of limited size.
    pub fn new(in_memory: bool) -> (r: CachedFileShared)
        ensures
            r@.wf(),
            r@.pages.len() == 0,
            r@.cap == CACHE_LIMIT as nat,
            r@.listeners.len() == 0,
            r@.in_memory == in_memory,
    {
        CachedFileShared {
            page_cache: lru_new(CACHE_LIMIT),
            evict_listeners: Vec::new(),
            in_memory,
        }
    }

    /// An empty cache without a limit.
    pub fn new_unbounded(in_memory: bool) -> (r: CachedFileShared)
        ensures
            r@.wf(),
            r@.pages.len() == 0,
            r@.cap == usize::MAX as nat,
            r@.listeners.len() == 0,
            r@.in_memory == in_memory,
    {
        CachedFileShared {
            page_cache: lru_unbounded(),
            evict_listeners: Vec::new(),
            in_memory,
        }
    }

    /// Whether the file has no device behind it.
    pub fn in_memory(&self) -> (r: bool)
        ensures
            r == self@.in_memory,
    {
        self.in_memory
    }

    /// Whether nobody listens.
    pub fn no_listeners(&self) -> (r: bool)
        ensures
            r == (self@.listeners.len() == 0),
    {
        self.evict_listeners.len() == 0
    }

    /// The number of listeners.
    pub fn listener_count(&self) -> (r: usize)
        ensures
            r == self@.listeners.len(),
    {
        self.evict_listeners.len()
    }

    /// The handle of the listener `i`.
    pub fn listener(&self, i: usize) -> (r: usize)
        requires
            i < self@.listeners.len(),
        ensures
            r == self@.listeners[i as int],
    {
        self.evict_listeners[i]
    }

    /// Adds a listener behind the others.
    pub fn add_listener(&mut self, handle: usize)
        ensures
            final(self)@ == (CacheView {
                listeners: old(self)@.listeners.push(handle),
                ..old(self)@
            }),
    {
        self.evict_listeners.push(handle);
    }

    /// Takes a listener out.
    pub fn remove_listener(&mut self, handle: usize)
        ensures
            final(self)@ == (CacheView {
                listeners: if old(self)@.listeners.contains(handle) {
                    old(self)@.listeners.remove(old(self)@.listeners.index_of_first(handle).unwrap())
                } else {
                    old(self)@.listeners
                },
                ..old(self)@
            }),
    {
        proof {
            old(self)@.listeners.index_of_first_ensures(handle);
        }
        let mut i: usize = 0;
        while i < self.evict_listeners.len()
            invariant
                *self == *old(self),
                i <= self.evict_listeners.len(),
                forall|j: int| 0 <= j < i ==> self.evict_listeners@[j] != handle,
            decreases self.evict_listeners.len() - i,
        {
            if self.evict_listeners[i] == handle {
                proof {
                    old(self)@.listeners.index_of_first_ensures(handle);
                }
                self.evict_listeners.remove(i);
                return;
            }
            i += 1;
        }
    }

    /// Appends what the listeners are told about a page.
    pub fn notify(&self, pn: u32, page: PageCache, op: PageOperation, effects: &mut Vec<Effect>)
        ensures
            final(effects)@ == old(effects)@ + self@.notices(pn, page, op),
    {
        let mut i: usize = 0;
        while i < self.evict_listeners.len()
            invariant
                i <= self.evict_listeners.len(),
                effects@ == old(effects)@ + self@.notices(pn, page, op).take(i as int),
            decreases self.evict_listeners.len() - i,
        {
            effects.push(Effect::Notify { listener: self.evict_listeners[i], pn, page, op });
            i += 1;
        }
        assert(self@.notices(pn, page, op).take(i as int) =~= self@.notices(pn, page, op));
    }

    /// The number of pages.
    pub fn len(&self) -> (r: usize)
        ensures
            r == self@.pages.len(),
    {
        lru_len(&self.page_cache)
    }

    /// Whether a new page needs an old one to leave.
    pub fn is_full(&self) -> (r: bool)
        ensures
            r == self@.full(),
    {
        lru_len(&self.page_cache) == lru_limit(&self.page_cache)
    }

    /// Whether there is a page for `pn`. No page is used by asking.
    pub fn contains(&self, pn: u32) -> (r: bool)
        ensures
            r == has_key(self@.pages, pn),
    {
        lru_contains(&self.page_cache, pn)
    }

    /// Uses the page for `pn`.
    pub fn get_mut(&mut self, pn: u32) -> (r: Option<&mut PageCache>)
        ensures
            match r {
                Some(page) => {
                    &&& lookup(old(self)@.pages, pn) == Some(*page)
                    &&& final(self)@ == old(self)@.with_pages(
                        placed(old(self)@.pages, pn, *final(page)),
                    )
                },
                None => {
                    &&& lookup(old(self)@.pages, pn) is None
                    &&& final(self)@ == old(self)@
                },
            },
    {
        lru_get_mut(&mut self.page_cache, pn)
    }

    /// Uses the page for `pn` and returns what it is.
    pub fn touch(&mut self, pn: u32) -> (r: Option<PageCache>)
        ensures
            r == lookup(old(self)@.pages, pn),
            final(self)@ == old(self)@.with_pages(touched(old(self)@.pages, pn)),
            old(self)@.wf() ==> final(self)@.wf() && page_map(final(self)@.pages) == page_map(
                old(self)@.pages,
            ),
    {
        proof {
            if self@.wf() {
                lemma_touched(self@.pages, pn);
            }
        }
        match lru_get_mut(&mut self.page_cache, pn) {
            Some(page) => Some(*page),
            None => None,
        }
    }

    /// Puts a page for `pn`, and returns what had to leave for it.
    pub fn push(&mut self, pn: u32, page: PageCache) -> (r: Option<(u32, PageCache)>)
        ensures
            final(self)@ == old(self)@.with_pages(
                pushed(old(self)@.pages, old(self)@.cap, pn, page),
            ),
            r == displaced(old(self)@.pages, old(self)@.cap, pn),
            old(self)@.wf() && page.wf() ==> final(self)@.wf(),
    {
        proof {
            if self@.wf() {
                lemma_pushed(self@.pages, self@.cap, pn, page);
            }
        }
        lru_push(&mut self.page_cache, pn, page)
    }

    /// Takes the page for `pn` out.
    pub fn pop(&mut self, pn: u32) -> (r: Option<PageCache>)
        ensures
            r == lookup(old(self)@.pages, pn),
            final(self)@ == old(self)@.with_pages(without(old(self)@.pages, pn)),
            old(self)@.wf() ==> final(self)@.wf(),
    {
        proof {
            if self@.wf() {
                lemma_without(self@.pages, pn);
            }
        }
        lru_pop(&mut self.page_cache, pn)
    }

    /// Takes the least recently used page out.
    pub fn pop_lru(&mut self) -> (r: Option<(u32, PageCache)>)
        ensures
            old(self)@.pages.len() == 0 ==> r is None && final(self)@ == old(self)@,
            old(self)@.pages.len() > 0 ==> r == Some(old(self)@.pages.last()) && final(self)@
                == old(self)@.with_pages(old(self)@.pages.drop_last()),
            old(self)@.wf() ==> final(self)@.wf(),
            old(self)@.wf() ==> (r matches Some(e) ==> e.1.wf()),
    {
        proof {
            if self@.wf() && self@.pages.len() > 0 {
                lemma_drop_last(self@.pages);
            }
        }
        lru_pop_lru(&mut self.page_cache)
    }

    /// The numbers of the pages, the most recently used first.
    pub fn keys(&self) -> (r: Vec<u32>)
        ensures
            r@ == self@.pages.map_values(|e: (u32, PageCache)| e.0),
    {
        lru_keys(&self.page_cache)
    }
}

} // verus!
