//! Setting the length of a cached file.

use vstd::prelude::*;
use vstd::pervasive::unreached;
use crate::addr::PAGE_SIZE_4K;
use crate::effect::{Effect, Reply, Request, Turn};
use crate::fs::cache::{CacheView, CachedFileShared, MAX_OFFSET};
use crate::fs::cached_file::CachedFile;
use crate::fs::chunks::{law_located_chunk_has_the_byte, offset_from, offset_order, step};
use crate::fs::evict::cleaned;
use crate::fs::page::{PageCache, PageOperation};
use crate::fs::recency::{
    distinct, has_key, lemma_at, lemma_lookup_map, lookup, page_map, pos, touched, without,
};

verus! {

/// Where a change of length stands.
#[derive(Debug, Clone, Copy, PartialEq, Eq, Structural)]
pub enum ResizeState {
    Begin,
    AwaitLen,
    AwaitSet,
    Over,
}

/// A change of the length of a file to `len`. A cached page with the old end in
/// it is cleared from there on if the file grows; the cached pages behind the
/// new end leave if it does not.
#[derive(Debug, Clone, Copy, PartialEq, Eq, Structural)]
pub struct Resize {
    pub file: CachedFile,
    pub len: u64,
    pub old_len: u64,
    pub state: ResizeState,
}

/// What a step of a change of length does.
pub struct ResizeStep {
    pub next: Resize,
    pub cache: CacheView,
    pub effects: Seq<Effect>,
    pub turn: Turn<()>,
}

/// The entries of `s` up to the page `pn`, in their order.
pub open spec fn kept(s: Seq<(u32, PageCache)>, pn: u32) -> Seq<(u32, PageCache)>
    decreases s.len(),
{
    if s.len() == 0 {
        s
    } else if s.last().0 <= pn {
        kept(s.drop_last(), pn).push(s.last())
    } else {
        kept(s.drop_last(), pn)
    }
}

/// What happens when a page leaves whose contents are not wanted any more.
pub open spec fn discard(cache: CacheView, in_memory: bool, entry: (u32, PageCache)) -> Seq<Effect> {
    if in_memory {
        seq![Effect::FreePage(entry.1)]
    } else {
        cache.notices(entry.0, cleaned(entry.1), PageOperation::Unmap) + seq![
            Effect::FreePage(cleaned(entry.1)),
        ]
    }
}

/// What happens when the entries of `s` behind the page `pn` leave.
pub open spec fn discards(
    cache: CacheView,
    in_memory: bool,
    s: Seq<(u32, PageCache)>,
    pn: u32,
) -> Seq<Effect>
    decreases s.len(),
{
    if s.len() == 0 {
        Seq::empty()
    } else if s.last().0 <= pn {
        discards(cache, in_memory, s.drop_last(), pn)
    } else {
        discards(cache, in_memory, s.drop_last(), pn) + discard(cache, in_memory, s.last())
    }
}

/// Every kept entry is one of the list up to `pn`, and the other way round.
pub proof fn lemma_kept(s: Seq<(u32, PageCache)>, pn: u32)
    ensures
        kept(s, pn).len() <= s.len(),
        forall|i: int| 0 <= i < kept(s, pn).len() ==> (#[trigger] kept(s, pn)[i]).0 <= pn && s.contains(
            kept(s, pn)[i],
        ),
        forall|i: int|
            0 <= i < s.len() && (#[trigger] s[i]).0 <= pn ==> kept(s, pn).contains(s[i]),
        distinct(s) ==> distinct(kept(s, pn)),
    decreases s.len(),
{
    if s.len() > 0 {
        let d = s.drop_last();
        lemma_kept(d, pn);
        let k = kept(s, pn);
        let kd = kept(d, pn);
        assert forall|i: int| 0 <= i < k.len() implies (#[trigger] k[i]).0 <= pn && s.contains(k[i]) by {
            if i < kd.len() {
                assert(k[i] == kd[i]);
                let j = choose|j: int| 0 <= j < d.len() && d[j] == kd[i];
                assert(s[j] == k[i]);
            } else {
                assert(k[i] == s[s.len() - 1]);
            }
        }
        assert forall|i: int| 0 <= i < s.len() && (#[trigger] s[i]).0 <= pn implies k.contains(s[i]) by {
            if i < d.len() {
                assert(d[i] == s[i]);
                assert(kd.contains(d[i]));
                let j = choose|j: int| 0 <= j < kd.len() && kd[j] == d[i];
                assert(k[j] == s[i]);
            } else {
                assert(k[k.len() - 1] == s[i]);
            }
        }
        if distinct(s) {
            assert(distinct(d)) by {
                assert forall|i: int, j: int| 0 <= i < j < d.len() implies (#[trigger] d[i]).0 != (
                #[trigger] d[j]).0 by {
                    assert(d[i] == s[i] && d[j] == s[j]);
                }
            }
            assert forall|i: int, j: int| 0 <= i < j < k.len() implies (#[trigger] k[i]).0 != (
            #[trigger] k[j]).0 by {
                if j < kd.len() {
                    assert(k[i] == kd[i] && k[j] == kd[j]);
                } else {
                    assert(k[j] == s.last());
                    assert(k[i] == kd[i]);
                    let a = choose|a: int| 0 <= a < d.len() && d[a] == kd[i];
                    assert(s[a] == k[i]);
                    assert(s[a].0 != s[s.len() - 1].0);
                }
            }
        }
    }
}

/// Keeping the entries up to a page takes the others out of the map.
pub proof fn lemma_kept_map(s: Seq<(u32, PageCache)>, pn: u32)
    requires
        distinct(s),
    ensures
        page_map(kept(s, pn)) == page_map(s).restrict(Set::new(|k: u32| k <= pn)),
{
    let k = kept(s, pn);
    lemma_kept(s, pn);
    assert forall|n: u32| has_key(k, n) == (has_key(s, n) && n <= pn) && (has_key(k, n) ==> k[pos(k, n)]
        == s[pos(s, n)]) by {
        if has_key(k, n) {
            let i = pos(k, n);
            let j = choose|j: int| 0 <= j < s.len() && s[j] == k[i];
            lemma_at(s, j);
        }
        if has_key(s, n) && n <= pn {
            let j = pos(s, n);
            assert(k.contains(s[j]));
            let i = choose|i: int| 0 <= i < k.len() && k[i] == s[j];
            assert(k[i].0 == n);
        }
    }
    assert(page_map(k) =~= page_map(s).restrict(Set::new(|k: u32| k <= pn)));
}

/// Takes every page behind `pn` out of the cache.
fn discard_behind(
    shared: &mut CachedFileShared,
    in_memory: bool,
    pn: u32,
    effects: &mut Vec<Effect>,
)
    requires
        old(shared)@.wf(),
    ensures
        final(shared)@.wf(),
        final(shared)@ == old(shared)@.with_pages(kept(old(shared)@.pages, pn)),
        final(effects)@ == old(effects)@ + discards(
            old(shared)@,
            in_memory,
            old(shared)@.pages,
            pn,
        ),
{
    let ghost view = shared@;
    let ghost s = shared@.pages;
    let keys: Vec<u32> = shared.keys();
    let mut i: usize = 0;
    assert(s.take(0).len() == 0);
    assert(kept(s.take(0), pn) + s.skip(0) =~= s);
    assert(discards(view, in_memory, s.take(0), pn) =~= Seq::empty());
    while i < keys.len()
        invariant
            view == old(shared)@,
            s == view.pages,
            view.wf(),
            keys@ == s.map_values(|e: (u32, PageCache)| e.0),
            i <= s.len(),
            shared@.wf(),
            shared@ == view.with_pages(kept(s.take(i as int), pn) + s.skip(i as int)),
            effects@ == old(effects)@ + discards(view, in_memory, s.take(i as int), pn),
        decreases keys.len() - i,
    {
        let key: u32 = keys[i];
        proof {
            let cur = shared@.pages;
            let k = kept(s.take(i as int), pn);
            assert(s.take(i + 1).drop_last() =~= s.take(i as int));
            assert(s.take(i + 1).last() == s[i as int]);
            assert(s.skip(i as int) =~= seq![s[i as int]] + s.skip(i + 1));
            assert(cur[k.len() as int] == s[i as int]);
            lemma_at(cur, k.len() as int);
            if key > pn {
                assert(without(cur, key) =~= k + s.skip(i + 1));
            } else {
                assert(cur =~= k.push(s[i as int]) + s.skip(i + 1));
            }
        }
        if key > pn {
            if let Some(page) = shared.pop(key) {
                if in_memory {
                    effects.push(Effect::FreePage(page));
                } else {
                    let page: PageCache = PageCache { dirty: false, ..page };
                    shared.notify(key, page, PageOperation::Unmap, effects);
                    effects.push(Effect::FreePage(page));
                }
            }
        }
        i += 1;
    }
    assert(s.take(i as int) =~= s);
    assert(s.skip(i as int).len() == 0);
    assert(kept(s, pn) + s.skip(i as int) =~= kept(s, pn));
}

impl Resize {
    /// Whether the reply can be one to the last request. The shorter of the two
    /// lengths must lie in what the page numbers reach.
    pub open spec fn awaits(self, reply: Reply) -> bool {
        match self.state {
            ResizeState::Begin => reply is Start,
            ResizeState::AwaitLen => match reply {
                Reply::Len(old_len) => old_len <= MAX_OFFSET || self.len <= MAX_OFFSET,
                _ => reply is Failed,
            },
            ResizeState::AwaitSet => reply is Done || reply is Failed,
            ResizeState::Over => false,
        }
    }

    pub open spec fn wf(self) -> bool {
        self.state is AwaitSet ==> self.old_len <= MAX_OFFSET || self.len <= MAX_OFFSET
    }

    /// The shorter of the two lengths.
    pub open spec fn shorter(self) -> int {
        if self.len < self.old_len {
            self.len as int
        } else {
            self.old_len as int
        }
    }

    /// What is cleared of the page with the old end in it.
    pub open spec fn clearing(self, pn: int, page: PageCache) -> Effect {
        let from = self.old_len - pn * PAGE_SIZE_4K;
        let to = if self.len - pn * PAGE_SIZE_4K < page.size {
            self.len - pn * PAGE_SIZE_4K
        } else {
            page.size as int
        };
        Effect::Zero { paddr: (page.paddr + from) as usize, len: (to - from) as usize }
    }

    /// What is left to do once the file itself has its new length.
    pub open spec fn settling(self, cache: CacheView) -> ResizeStep {
        let m = page_map(cache.pages);
        let pn = offset_from(m, 0, self.shorter());
        let s = offset_order(cache.pages, m, 0, self.shorter());
        ResizeStep {
            next: Resize { state: ResizeState::Over, ..self },
            cache: cache.with_pages(
                if self.old_len < self.len {
                    touched(s, pn as u32)
                } else {
                    kept(s, pn as u32)
                },
            ),
            effects: if self.old_len < self.len {
                match lookup(s, pn as u32) {
                    Some(page) => seq![self.clearing(pn, page)],
                    None => Seq::empty(),
                }
            } else {
                discards(cache, self.file.in_memory, s, pn as u32)
            },
            turn: Turn::Finished(Ok(())),
        }
    }

    /// What the step does.
    pub open spec fn after(self, cache: CacheView, reply: Reply) -> ResizeStep {
        match (self.state, reply) {
            (ResizeState::Begin, _) => ResizeStep {
                next: Resize { state: ResizeState::AwaitLen, ..self },
                cache,
                effects: Seq::empty(),
                turn: Turn::Ask(Request::FileLen),
            },
            (ResizeState::AwaitLen, Reply::Len(old_len)) => ResizeStep {
                next: Resize { state: ResizeState::AwaitSet, old_len, ..self },
                cache,
                effects: Seq::empty(),
                turn: Turn::Ask(Request::FileSetLen(self.len)),
            },
            (ResizeState::AwaitSet, Reply::Done) => self.settling(cache),
            (_, Reply::Failed(e)) => ResizeStep {
                next: Resize { state: ResizeState::Over, ..self },
                cache,
                effects: Seq::empty(),
                turn: Turn::Finished(Err(e)),
            },
            _ => arbitrary(),
        }
    }

    /// Does what is left once the file itself has its new length.
    fn settle(&mut self, shared: &mut CachedFileShared, effects: &mut Vec<Effect>) -> (r: Turn<()>)
        requires
            old(self).old_len <= MAX_OFFSET || old(self).len <= MAX_OFFSET,
            old(shared)@.wf(),
        ensures
            final(shared)@.wf(),
            ({
                let s = old(self).settling(old(shared)@);
                &&& *final(self) == s.next
                &&& final(shared)@ == s.cache
                &&& final(effects)@ == old(effects)@ + s.effects
                &&& r == s.turn
            }),
    {
        self.state = ResizeState::Over;
        let shorter: u64 = if self.len < self.old_len {
            self.len
        } else {
            self.old_len
        };
        let (pn, chunk_start) = self.file.locate_offset(shared, shorter);
        if self.old_len < self.len {
            proof {
                let m = page_map(old(shared)@.pages);
                law_located_chunk_has_the_byte(m, shorter as int);
                lemma_lookup_map(shared@.pages, pn);
                if lookup(shared@.pages, pn) is Some {
                    assert(m.dom().contains(pn));
                    assert(m[pn].wf());
                }
            }
            if let Some(page) = shared.touch(pn) {
                let old_page_offset: usize = (self.old_len - chunk_start) as usize;
                let rest: u64 = self.len - chunk_start;
                let new_page_offset: usize = if rest < page.size() as u64 {
                    rest as usize
                } else {
                    page.size()
                };
                effects.push(
                    Effect::Zero {
                        paddr: page.paddr() + old_page_offset,
                        len: new_page_offset - old_page_offset,
                    },
                );
            }
        } else {
            discard_behind(shared, self.file.in_memory, pn, effects);
            proof {
                lemma_discards_view(
                    old(shared)@,
                    old(shared)@.with_pages(
                        offset_order(
                            old(shared)@.pages,
                            page_map(old(shared)@.pages),
                            0,
                            shorter as int,
                        ),
                    ),
                    self.file.in_memory,
                    offset_order(
                        old(shared)@.pages,
                        page_map(old(shared)@.pages),
                        0,
                        shorter as int,
                    ),
                    pn,
                );
            }
        }
        Turn::Finished(Ok(()))
    }

    /// Goes on with the change of length.
    pub fn step(
        &mut self,
        shared: &mut CachedFileShared,
        reply: Reply,
        effects: &mut Vec<Effect>,
    ) -> (r: Turn<()>)
        requires
            old(self).wf(),
            old(self).awaits(reply),
            old(shared)@.wf(),
        ensures
            final(self).wf(),
            final(shared)@.wf(),
            ({
                let s = old(self).after(old(shared)@, reply);
                &&& *final(self) == s.next
                &&& final(shared)@ == s.cache
                &&& final(effects)@ == old(effects)@ + s.effects
                &&& r == s.turn
            }),
    {
        match (self.state, reply) {
            (ResizeState::Begin, _) => {
                self.state = ResizeState::AwaitLen;
                Turn::Ask(Request::FileLen)
            },
            (ResizeState::AwaitLen, Reply::Len(old_len)) => {
                self.old_len = old_len;
                self.state = ResizeState::AwaitSet;
                Turn::Ask(Request::FileSetLen(self.len))
            },
            (ResizeState::AwaitSet, Reply::Done) => self.settle(shared, effects),
            (_, Reply::Failed(e)) => {
                self.state = ResizeState::Over;
                Turn::Finished(Err(e))
            },
            _ => unreached(),
        }
    }
}

/// What happens to pages that leave depends on the listeners of the cache alone.
proof fn lemma_discards_view(
    a: CacheView,
    b: CacheView,
    in_memory: bool,
    s: Seq<(u32, PageCache)>,
    pn: u32,
)
    requires
        a.listeners == b.listeners,
    ensures
        discards(a, in_memory, s, pn) == discards(b, in_memory, s, pn),
    decreases s.len(),
{
    if s.len() > 0 {
        lemma_discards_view(a, b, in_memory, s.drop_last(), pn);
    }
}

impl CachedFile {
    /// Sets the length of the file.
    pub fn set_len(&self, len: u64) -> (r: Resize)
        ensures
            r == (Resize { file: *self, len, old_len: 0, state: ResizeState::Begin }),
            r.wf(),
    {
        Resize { file: *self, len, old_len: 0, state: ResizeState::Begin }
    }
}

} // verus!
