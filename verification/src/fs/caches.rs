//! All page caches, and who holds them.

use vstd::prelude::*;
use crate::effect::Effect;
use crate::fs::cache::{CacheView, CachedFileShared, CACHE_LIMIT};
use crate::fs::cached_file::CachedFile;
use crate::fs::location::Location;
use crate::fs::page::PageCache;
use crate::fs::reclaim::{frees, grand_total, shrink_page_cache, shrunk, views};

verus! {

/// Who holds a page cache.
#[derive(Debug, Clone, Copy, PartialEq, Eq, Structural)]
pub struct Slot {
    /// The number of the cache.
    pub id: u64,
    /// How many open files use it.
    pub handles: usize,
    /// Whether the place of the file holds it too.
    pub pinned: bool,
}

/// All page caches. A cache goes when nobody holds it any more.
pub struct PageCaches {
    slots: Vec<Slot>,
    caches: Vec<CachedFileShared>,
    next: u64,
}

/// What the page caches amount to.
pub struct CachesView {
    pub slots: Seq<Slot>,
    pub caches: Seq<CacheView>,
    /// The number of the next new cache.
    pub next: u64,
}

impl View for PageCaches {
    type V = CachesView;

    closed spec fn view(&self) -> CachesView {
        CachesView { slots: self.slots@, caches: views(self.caches@), next: self.next }
    }
}

/// Whether there is a cache with a number.
pub open spec fn has_slot(slots: Seq<Slot>, id: u64) -> bool {
    exists|i: int| 0 <= i < slots.len() && (#[trigger] slots[i]).id == id
}

/// Where the cache with a number stands.
pub open spec fn slot_of(slots: Seq<Slot>, id: u64) -> int {
    choose|i: int| 0 <= i < slots.len() && (#[trigger] slots[i]).id == id
}

impl CachesView {
    /// Each cache is well-formed, has a number of its own that was given out, and
    /// is held by somebody.
    pub open spec fn wf(self) -> bool {
        &&& self.slots.len() == self.caches.len()
        &&& forall|i: int| 0 <= i < self.caches.len() ==> (#[trigger] self.caches[i]).wf()
        &&& forall|i: int|
            0 <= i < self.slots.len() ==> (#[trigger] self.slots[i]).id < self.next && (self.slots[i].handles
                > 0 || self.slots[i].pinned)
        &&& forall|i: int, j: int|
            0 <= i < j < self.slots.len() ==> (#[trigger] self.slots[i]).id != (#[trigger] self.slots[j]).id
    }

    /// The caches with `n` handles of the cache at `i`.
    pub open spec fn with_handles(self, i: int, handles: usize) -> CachesView {
        CachesView {
            slots: self.slots.update(i, Slot { handles, ..self.slots[i] }),
            ..self
        }
    }

    /// The number of the cache of a file that is opened where the cache `noted`
    /// is noted.
    pub open spec fn number(self, noted: Option<u64>) -> u64 {
        match noted {
            Some(id) if has_slot(self.slots, id) => id,
            _ => self.next,
        }
    }

    /// The caches after a file was opened: the cache that is noted at its place
    /// has another handle, or there is a new cache, without a limit and held by
    /// the place for a file without a device, of limited size otherwise.
    pub open spec fn opened(self, location: Location, noted: Option<u64>) -> CachesView {
        match noted {
            Some(id) if has_slot(self.slots, id) => {
                let i = slot_of(self.slots, id);
                self.with_handles(i, (self.slots[i].handles + 1) as usize)
            },
            _ => CachesView {
                slots: self.slots.push(
                    Slot { id: self.next, handles: 1, pinned: location.in_memory },
                ),
                caches: self.caches.push(
                    CacheView {
                        pages: Seq::empty(),
                        cap: if location.in_memory {
                            usize::MAX as nat
                        } else {
                            CACHE_LIMIT as nat
                        },
                        listeners: Seq::empty(),
                        in_memory: location.in_memory,
                    },
                ),
                next: (self.next + 1) as u64,
            },
        }
    }

    /// Whether another file can be opened: there is a number for a new cache, and
    /// another handle of the noted one can be counted.
    pub open spec fn can_open(self, noted: Option<u64>) -> bool {
        &&& self.next < u64::MAX
        &&& match noted {
            Some(id) if has_slot(self.slots, id) => self.slots[slot_of(self.slots, id)].handles
                < usize::MAX,
            _ => true,
        }
    }

    /// The caches without the one at `i`.
    pub open spec fn without(self, i: int) -> CachesView {
        CachesView { slots: self.slots.remove(i), caches: self.caches.remove(i), ..self }
    }
}

/// The memory of all pages of a cache, given back, the least recently used page
/// first.
pub open spec fn emptied(pages: Seq<(u32, PageCache)>) -> Seq<Effect>
    decreases pages.len(),
{
    if pages.len() == 0 {
        Seq::empty()
    } else {
        seq![Effect::FreePage(pages.last().1)] + emptied(pages.drop_last())
    }
}

/// Gives the memory of all pages of a cache back.
fn empty_cache(shared: &mut CachedFileShared, effects: &mut Vec<Effect>)
    requires
        old(shared)@.wf(),
    ensures
        final(effects)@ == old(effects)@ + emptied(old(shared)@.pages),
{
    assert(effects@ + emptied(shared@.pages) == old(effects)@ + emptied(old(shared)@.pages));
    while shared.len() > 0
        invariant
            shared@.wf(),
            effects@ + emptied(shared@.pages) == old(effects)@ + emptied(old(shared)@.pages),
        decreases shared@.pages.len(),
    {
        let ghost before = shared@.pages;
        let ghost told = effects@;
        if let Some(entry) = shared.pop_lru() {
            effects.push(Effect::FreePage(entry.1));
            assert(effects@ + emptied(shared@.pages) =~= told + emptied(before));
        }
    }
    assert(effects@ + emptied(shared@.pages) =~= effects@);
}

impl PageCaches {
    /// No cache.
    pub fn new() -> (r: PageCaches)
        ensures
            r@.wf(),
            r@.slots.len() == 0,
            r@.next == 0,
    {
        PageCaches { slots: Vec::new(), caches: Vec::new(), next: 0 }
    }

    /// Where the cache with a number stands.
    fn find(&self, id: u64) -> (r: Option<usize>)
        requires
            self@.wf(),
        ensures
            match r {
                Some(i) => has_slot(self@.slots, id) && i == slot_of(self@.slots, id) && i
                    < self@.slots.len() && self@.slots[i as int].id == id,
                None => !has_slot(self@.slots, id),
            },
    {
        let mut i: usize = 0;
        while i < self.slots.len()
            invariant
                self@.wf(),
                i <= self@.slots.len(),
                forall|j: int| 0 <= j < i ==> (#[trigger] self@.slots[j]).id != id,
            decreases self@.slots.len() - i,
        {
            if self.slots[i].id == id {
                proof {
                    assert(self@.slots[i as int].id == id);
                    let k = slot_of(self@.slots, id);
                    assert(0 <= k < self@.slots.len() && self@.slots[k].id == id);
                }
                return Some(i);
            }
            i += 1;
        }
        None
    }

    /// The cache of a file.
    pub fn cache_mut<'a>(&'a mut self, file: &CachedFile) -> (r: Option<&'a mut CachedFileShared>)
        requires
            old(self)@.wf(),
        ensures
            match r {
                Some(shared) => {
                    let i = slot_of(old(self)@.slots, file.shared);
                    &&& has_slot(old(self)@.slots, file.shared)
                    &&& 0 <= i < old(self)@.slots.len()
                    &&& old(self)@.slots[i].id == file.shared
                    &&& shared@ == old(self)@.caches[i]
                    &&& final(self)@ == (CachesView {
                        caches: old(self)@.caches.update(i, final(shared)@),
                        ..old(self)@
                    })
                },
                None => !has_slot(old(self)@.slots, file.shared) && final(self)@ == old(self)@,
            },
    {
        match self.find(file.shared) {
            Some(i) => {
                let shared: &'a mut CachedFileShared = &mut self.caches[i];
                proof {
                    lemma_views_update(old(self).caches@, i as int, *final(shared));
                }
                Some(shared)
            },
            None => None,
        }
    }

    /// Counts another handle of the cache of a file.
    pub fn share(&mut self, file: &CachedFile) -> (r: CachedFile)
        requires
            old(self)@.wf(),
            has_slot(old(self)@.slots, file.shared),
            old(self)@.slots[slot_of(old(self)@.slots, file.shared)].handles < usize::MAX,
        ensures
            r == *file,
            final(self)@.wf(),
            ({
                let i = slot_of(old(self)@.slots, file.shared);
                final(self)@ == old(self)@.with_handles(
                    i,
                    (old(self)@.slots[i].handles + 1) as usize,
                )
            }),
    {
        if let Some(i) = self.find(file.shared) {
            let slot: Slot = self.slots[i];
            self.slots.set(i, Slot { handles: slot.handles + 1, ..slot });
        }
        *file
    }

    /// Whether a file is the last one to hold its cache: it is synced before it
    /// goes.
    pub fn is_last(&self, file: &CachedFile) -> (r: bool)
        requires
            self@.wf(),
        ensures
            r == (has_slot(self@.slots, file.shared) && ({
                let slot = self@.slots[slot_of(self@.slots, file.shared)];
                slot.handles == 1 && !slot.pinned
            })),
    {
        match self.find(file.shared) {
            Some(i) => self.slots[i].handles == 1 && !self.slots[i].pinned,
            None => false,
        }
    }

    /// Takes a cache that nobody holds any more out.
    fn discard(&mut self, i: usize, effects: &mut Vec<Effect>)
        requires
            old(self)@.slots.len() == old(self)@.caches.len(),
            i < old(self)@.slots.len(),
            old(self)@.caches[i as int].wf(),
        ensures
            final(self)@ == old(self)@.without(i as int),
            final(effects)@ == old(effects)@ + emptied(old(self)@.caches[i as int].pages),
    {
        let mut shared: CachedFileShared = self.caches.remove(i);
        self.slots.remove(i);
        proof {
            assert(views(self.caches@) =~= views(old(self).caches@).remove(i as int));
        }
        empty_cache(&mut shared, effects);
    }

    /// Counts a handle of the cache of a file off. A cache that nobody holds any
    /// more goes, and the memory of its pages is given back.
    pub fn release(&mut self, file: &CachedFile, effects: &mut Vec<Effect>)
        requires
            old(self)@.wf(),
            has_slot(old(self)@.slots, file.shared),
            old(self)@.slots[slot_of(old(self)@.slots, file.shared)].handles > 0,
        ensures
            final(self)@.wf(),
            ({
                let i = slot_of(old(self)@.slots, file.shared);
                let slot = old(self)@.slots[i];
                if slot.handles == 1 && !slot.pinned {
                    &&& final(self)@ == old(self)@.without(i)
                    &&& final(effects)@ == old(effects)@ + emptied(old(self)@.caches[i].pages)
                } else {
                    &&& final(self)@ == old(self)@.with_handles(i, (slot.handles - 1) as usize)
                    &&& final(effects)@ == old(effects)@
                }
            }),
    {
        if let Some(i) = self.find(file.shared) {
            let slot: Slot = self.slots[i];
            if slot.handles == 1 && !slot.pinned {
                self.discard(i, effects);
                proof {
                    lemma_without(old(self)@, i as int);
                }
            } else {
                self.slots.set(i, Slot { handles: slot.handles - 1, ..slot });
            }
        }
    }

    /// The place of a file lets its cache go. A cache that nobody holds any more
    /// goes, and the memory of its pages is given back.
    pub fn unpin(&mut self, id: u64, effects: &mut Vec<Effect>)
        requires
            old(self)@.wf(),
        ensures
            final(self)@.wf(),
            !has_slot(old(self)@.slots, id) ==> final(self)@ == old(self)@ && final(effects)@ == old(
                effects,
            )@,
            has_slot(old(self)@.slots, id) ==> ({
                let i = slot_of(old(self)@.slots, id);
                let slot = old(self)@.slots[i];
                if slot.handles == 0 {
                    &&& final(self)@ == old(self)@.without(i)
                    &&& final(effects)@ == old(effects)@ + emptied(old(self)@.caches[i].pages)
                } else {
                    &&& final(self)@ == (CachesView {
                        slots: old(self)@.slots.update(i, Slot { pinned: false, ..slot }),
                        ..old(self)@
                    })
                    &&& final(effects)@ == old(effects)@
                }
            }),
    {
        if let Some(i) = self.find(id) {
            let slot: Slot = self.slots[i];
            if slot.handles == 0 {
                self.discard(i, effects);
                proof {
                    lemma_without(old(self)@, i as int);
                }
            } else {
                self.slots.set(i, Slot { pinned: false, ..slot });
            }
        }
    }

    /// Gives clean pages up until `target_pages` small pages are free or no spare
    /// cache has one left. Returns how many small pages are free now.
    pub fn shrink(&mut self, target_pages: usize, effects: &mut Vec<Effect>) -> (r: usize)
        requires
            old(self)@.wf(),
            grand_total(old(self)@.caches) <= usize::MAX,
        ensures
            final(self)@.wf(),
            ({
                let (left, out, freed) = shrunk(old(self)@.caches, target_pages as int);
                &&& final(self)@ == (CachesView { caches: left, ..old(self)@ })
                &&& final(effects)@ == old(effects)@ + frees(out)
                &&& r == freed
            }),
    {
        proof {
            lemma_caches_wf(*self);
        }
        let r: usize = shrink_page_cache(&mut self.caches, target_pages, effects);
        proof {
            crate::fs::reclaim::lemma_shrunk_total(old(self)@.caches, target_pages as int);
            assert forall|i: int| 0 <= i < self@.caches.len() implies (#[trigger] self@.caches[i]).wf() by {
                assert(self.caches@[i]@ == self@.caches[i]);
            }
        }
        r
    }
}

impl CachedFile {
    /// The file at a place. Its cache is the one that is noted there by its
    /// number, if that is still held, else a new one, whose number is to be noted
    /// there.
    pub fn get_or_create(caches: &mut PageCaches, location: Location, noted: Option<u64>) -> (r:
        CachedFile)
        requires
            old(caches)@.wf(),
            old(caches)@.can_open(noted),
        ensures
            final(caches)@.wf(),
            final(caches)@ == old(caches)@.opened(location, noted),
            r == (CachedFile {
                inner: location,
                shared: old(caches)@.number(noted),
                in_memory: location.in_memory,
            }),
    {
        if let Some(id) = noted {
            if let Some(i) = caches.find(id) {
                let slot: Slot = caches.slots[i];
                caches.slots.set(i, Slot { handles: slot.handles + 1, ..slot });
                return CachedFile { inner: location, shared: id, in_memory: location.in_memory };
            }
        }
        let shared: CachedFileShared = if location.in_memory {
            CachedFileShared::new_unbounded(true)
        } else {
            CachedFileShared::new(false)
        };
        let id: u64 = caches.next;
        let ghost before = caches@;
        caches.next = id + 1;
        caches.slots.push(Slot { id, handles: 1, pinned: location.in_memory });
        caches.caches.push(shared);
        proof {
            assert(shared@.pages =~= Seq::empty());
            assert(shared@.listeners =~= Seq::empty());
            assert(caches@.caches =~= before.caches.push(shared@));
        }
        CachedFile { inner: location, shared: id, in_memory: location.in_memory }
    }

    /// Lets a listener hear of the pages that leave the cache. Its handle tells it
    /// from the others.
    pub fn add_evict_listener(&self, shared: &mut CachedFileShared, handle: usize) -> (r: usize)
        requires
            !old(shared)@.listeners.contains(handle),
        ensures
            r == handle,
            final(shared)@ == (CacheView {
                listeners: old(shared)@.listeners.push(handle),
                ..old(shared)@
            }),
    {
        shared.add_listener(handle);
        handle
    }

    /// Lets a listener hear nothing any more.
    pub fn remove_evict_listener(&self, shared: &mut CachedFileShared, handle: usize)
        requires
            old(shared)@.listeners.contains(handle),
        ensures
            final(shared)@ == (CacheView {
                listeners: old(shared)@.listeners.remove(
                    old(shared)@.listeners.index_of_first(handle).unwrap(),
                ),
                ..old(shared)@
            }),
    {
        shared.remove_listener(handle);
    }
}

proof fn lemma_views_update(caches: Seq<CachedFileShared>, i: int, shared: CachedFileShared)
    requires
        0 <= i < caches.len(),
    ensures
        views(caches.update(i, shared)) == views(caches).update(i, shared@),
{
    assert(views(caches.update(i, shared)) =~= views(caches).update(i, shared@));
}

proof fn lemma_caches_wf(c: PageCaches)
    requires
        c@.wf(),
    ensures
        forall|i: int| 0 <= i < c.caches@.len() ==> (#[trigger] c.caches@[i])@.wf(),
{
    assert forall|i: int| 0 <= i < c.caches@.len() implies (#[trigger] c.caches@[i])@.wf() by {
        assert(c@.caches[i] == c.caches@[i]@);
    }
}

proof fn lemma_without(v: CachesView, i: int)
    requires
        v.wf(),
        0 <= i < v.slots.len(),
    ensures
        v.without(i).wf(),
{
    let w = v.without(i);
    assert forall|k: int| 0 <= k < w.caches.len() implies (#[trigger] w.caches[k]).wf() by {
        assert(w.caches[k] == v.caches[if k < i { k } else { k + 1 }]);
    }
    assert forall|k: int| 0 <= k < w.slots.len() implies (#[trigger] w.slots[k]).id < w.next && (
    w.slots[k].handles > 0 || w.slots[k].pinned) by {
        assert(w.slots[k] == v.slots[if k < i { k } else { k + 1 }]);
    }
    assert forall|k: int, j: int| 0 <= k < j < w.slots.len() implies (#[trigger] w.slots[k]).id != (
    #[trigger] w.slots[j]).id by {
        assert(w.slots[k] == v.slots[if k < i { k } else { k + 1 }]);
        assert(w.slots[j] == v.slots[if j < i { j } else { j + 1 }]);
    }
}

/// A listener that was added and taken out again leaves the listeners as they
/// were.
pub proof fn law_listener_added_and_removed(listeners: Seq<usize>, handle: usize)
    requires
        !listeners.contains(handle),
    ensures
        ({
            let added = listeners.push(handle);
            added.remove(added.index_of_first(handle).unwrap()) == listeners
        }),
{
    let added = listeners.push(handle);
    assert(added[listeners.len() as int] == handle);
    assert(added.contains(handle));
    added.index_of_first_ensures(handle);
    let i = added.index_of_first(handle).unwrap();
    assert(added[i] == handle);
    if i < listeners.len() {
        assert(listeners[i] == handle);
    }
    assert(added.remove(i) =~= listeners);
}

/// A file that is opened again where its cache is noted, while somebody holds the
/// cache, gets the same cache, with the pages that it has.
pub proof fn law_opening_again_finds_the_cache(v: CachesView, location: Location, noted: Option<u64>)
    requires
        v.wf(),
        v.can_open(noted),
    ensures
        ({
            let id = v.number(noted);
            let once = v.opened(location, noted);
            let twice = once.opened(location, Some(id));
            &&& has_slot(once.slots, id)
            &&& once.number(Some(id)) == id
            &&& twice.slots.len() == once.slots.len()
            &&& twice.caches == once.caches
        }),
{
    let id = v.number(noted);
    let once = v.opened(location, noted);
    match noted {
        Some(old_id) if has_slot(v.slots, old_id) => {
            let i = slot_of(v.slots, old_id);
            assert(0 <= i < v.slots.len() && v.slots[i].id == old_id);
            assert(once.slots[i].id == id);
        },
        _ => {
            assert(once.slots[v.slots.len() as int].id == id);
        },
    }
}

} // verus!
