//! How many mappings each frame of user memory has.

use vstd::prelude::*;
use std::collections::BTreeMap;
use crate::addr::{PageSize, PAGE_SIZE_2M, PAGE_SIZE_4K, THP_NR_4K_PAGES};
use crate::effect::Effect;

verus! {

/// The number of mappings that a frame has. A frame that is not counted has
/// none.
pub open spec fn count(m: Map<usize, u8>, paddr: usize) -> nat {
    if m.dom().contains(paddr) {
        m[paddr] as nat
    } else {
        0
    }
}

/// The counts with one mapping of a frame more.
pub open spec fn incremented(m: Map<usize, u8>, paddr: usize) -> Map<usize, u8> {
    m.insert(paddr, (count(m, paddr) + 1) as u8)
}

/// The counts with one mapping of a frame less.
pub open spec fn decremented(m: Map<usize, u8>, paddr: usize) -> Map<usize, u8> {
    if count(m, paddr) <= 1 {
        m.remove(paddr)
    } else {
        m.insert(paddr, (count(m, paddr) - 1) as u8)
    }
}

/// What happens when a frame loses a mapping: with the last one the frame is
/// given back.
pub open spec fn dropped(m: Map<usize, u8>, paddr: usize, size: PageSize) -> Seq<Effect> {
    if count(m, paddr) == 1 {
        seq![Effect::FreeFrame { paddr, size }]
    } else {
        Seq::empty()
    }
}

/// The small frame `i` of a huge one.
pub open spec fn sub_frame(base: usize, i: int) -> usize {
    (base + i * PAGE_SIZE_4K) as usize
}

/// The counts with one mapping more of each of the first `n` small frames.
pub open spec fn all_incremented(m: Map<usize, u8>, base: usize, n: nat) -> Map<usize, u8>
    decreases n,
{
    if n == 0 {
        m
    } else {
        incremented(all_incremented(m, base, (n - 1) as nat), sub_frame(base, n - 1))
    }
}

/// The counts with one mapping less of each of the first `n` small frames.
pub open spec fn all_decremented(m: Map<usize, u8>, base: usize, n: nat) -> Map<usize, u8>
    decreases n,
{
    if n == 0 {
        m
    } else {
        decremented(all_decremented(m, base, (n - 1) as nat), sub_frame(base, n - 1))
    }
}

/// What happens when each of the first `n` small frames loses a mapping.
pub open spec fn all_dropped(m: Map<usize, u8>, base: usize, n: nat) -> Seq<Effect>
    decreases n,
{
    if n == 0 {
        Seq::empty()
    } else {
        all_dropped(m, base, (n - 1) as nat) + dropped(
            all_decremented(m, base, (n - 1) as nat),
            sub_frame(base, n - 1),
            PageSize::Size4K,
        )
    }
}

/// The counts with one mapping less of each frame of a list.
pub open spec fn list_decremented(m: Map<usize, u8>, list: Seq<usize>) -> Map<usize, u8>
    decreases list.len(),
{
    if list.len() == 0 {
        m
    } else {
        decremented(list_decremented(m, list.drop_last()), list.last())
    }
}

/// What happens when each small frame of a list loses a mapping.
pub open spec fn list_dropped(m: Map<usize, u8>, list: Seq<usize>) -> Seq<Effect>
    decreases list.len(),
{
    if list.len() == 0 {
        Seq::empty()
    } else {
        list_dropped(m, list.drop_last()) + dropped(
            list_decremented(m, list.drop_last()),
            list.last(),
            PageSize::Size4K,
        )
    }
}

/// Whether every counted frame has a mapping.
pub open spec fn counts_ok(m: Map<usize, u8>) -> bool {
    forall|paddr: usize| #[trigger] m.dom().contains(paddr) ==> m[paddr] > 0
}

/// Whether each small frame of a huge one can have another mapping.
pub open spec fn block_has_room(m: Map<usize, u8>, base: usize) -> bool {
    forall|i: int|
        0 <= i < THP_NR_4K_PAGES ==> count(m, #[trigger] sub_frame(base, i)) < u8::MAX
}

/// The counts of mappings of the frames of user memory.
pub struct FrameTable {
    counts: BTreeMap<usize, u8>,
}

impl View for FrameTable {
    type V = Map<usize, u8>;

    closed spec fn view(&self) -> Map<usize, u8> {
        self.counts@
    }
}

impl FrameTable {
    /// No frame has a mapping.
    pub fn new() -> (r: FrameTable)
        ensures
            r@ == Map::<usize, u8>::empty(),
    {
        FrameTable { counts: BTreeMap::new() }
    }

    /// The number of mappings of a frame.
    pub fn frame_ref_count(&self, paddr: usize) -> (r: u8)
        ensures
            r == count(self@, paddr),
    {
        match self.counts.get(&paddr) {
            Some(n) => *n,
            None => 0,
        }
    }

    /// Counts a new mapping of a frame.
    pub fn inc_frame_ref(&mut self, paddr: usize)
        requires
            count(old(self)@, paddr) < u8::MAX,
        ensures
            final(self)@ == incremented(old(self)@, paddr),
    {
        let n: u8 = self.frame_ref_count(paddr);
        self.counts.insert(paddr, n + 1);
    }

    /// Counts a mapping of a frame off, and returns how many there were.
    pub fn dec_frame_ref(&mut self, paddr: usize) -> (r: usize)
        requires
            counts_ok(old(self)@),
        ensures
            r == count(old(self)@, paddr),
            final(self)@ == decremented(old(self)@, paddr),
            counts_ok(final(self)@),
    {
        let n: u8 = self.frame_ref_count(paddr);
        if n == 0 {
            assert(decremented(self@, paddr) =~= self@);
        } else if n == 1 {
            self.counts.remove(&paddr);
        } else {
            self.counts.insert(paddr, n - 1);
        }
        n as usize
    }

    /// Counts a mapping of a frame off, and gives the frame back if it was the
    /// last one.
    pub fn drop_frame_ref(&mut self, paddr: usize, size: PageSize, effects: &mut Vec<Effect>)
        requires
            counts_ok(old(self)@),
        ensures
            final(self)@ == decremented(old(self)@, paddr),
            counts_ok(final(self)@),
            final(effects)@ == old(effects)@ + dropped(old(self)@, paddr, size),
    {
        if self.dec_frame_ref(paddr) == 1 {
            effects.push(Effect::FreeFrame { paddr, size });
        }
    }

    /// Counts a mapping of each small frame of a huge one off, and gives those
    /// back for which it was the last.
    pub fn drop_block(&mut self, base: usize, effects: &mut Vec<Effect>)
        requires
            counts_ok(old(self)@),
            base + PAGE_SIZE_2M <= usize::MAX,
        ensures
            final(self)@ == all_decremented(old(self)@, base, THP_NR_4K_PAGES as nat),
            counts_ok(final(self)@),
            final(effects)@ == old(effects)@ + all_dropped(
                old(self)@,
                base,
                THP_NR_4K_PAGES as nat,
            ),
    {
        let mut i: u32 = 0;
        while i < THP_NR_4K_PAGES
            invariant
                i <= THP_NR_4K_PAGES,
                base + PAGE_SIZE_2M <= usize::MAX,
                counts_ok(self@),
                self@ == all_decremented(old(self)@, base, i as nat),
                effects@ == old(effects)@ + all_dropped(old(self)@, base, i as nat),
            decreases THP_NR_4K_PAGES - i,
        {
            self.drop_frame_ref(base + i as usize * PAGE_SIZE_4K, PageSize::Size4K, effects);
            i += 1;
        }
    }

    /// Counts a mapping of each small frame of a list off, and gives those back
    /// for which it was the last.
    pub fn drop_list(&mut self, list: &Vec<usize>, effects: &mut Vec<Effect>)
        requires
            counts_ok(old(self)@),
        ensures
            final(self)@ == list_decremented(old(self)@, list@),
            counts_ok(final(self)@),
            final(effects)@ == old(effects)@ + list_dropped(old(self)@, list@),
    {
        let mut i: usize = 0;
        while i < list.len()
            invariant
                i <= list@.len(),
                counts_ok(self@),
                self@ == list_decremented(old(self)@, list@.take(i as int)),
                effects@ == old(effects)@ + list_dropped(old(self)@, list@.take(i as int)),
            decreases list@.len() - i,
        {
            proof {
                assert(list@.take(i + 1).drop_last() =~= list@.take(i as int));
                assert(list@.take(i + 1).last() == list@[i as int]);
            }
            self.drop_frame_ref(list[i], PageSize::Size4K, effects);
            i += 1;
        }
        assert(list@.take(i as int) =~= list@);
    }

    /// Counts a new mapping of each small frame of a huge one.
    pub fn inc_block(&mut self, base: usize)
        requires
            base + PAGE_SIZE_2M <= usize::MAX,
            block_has_room(old(self)@, base),
        ensures
            final(self)@ == all_incremented(old(self)@, base, THP_NR_4K_PAGES as nat),
            counts_ok(old(self)@) ==> counts_ok(final(self)@),
    {
        let mut i: u32 = 0;
        while i < THP_NR_4K_PAGES
            invariant
                i <= THP_NR_4K_PAGES,
                base + PAGE_SIZE_2M <= usize::MAX,
                block_has_room(old(self)@, base),
                self@ == all_incremented(old(self)@, base, i as nat),
                counts_ok(old(self)@) ==> counts_ok(self@),
            decreases THP_NR_4K_PAGES - i,
        {
            proof {
                lemma_all_incremented(old(self)@, base, i as nat);
                assert(count(self@, sub_frame(base, i as int)) == count(
                    old(self)@,
                    sub_frame(base, i as int),
                ));
            }
            self.inc_frame_ref(base + i as usize * PAGE_SIZE_4K);
            i += 1;
        }
    }
}

/// The first `n` small frames have one mapping more, all other frames as many
/// as before.
pub proof fn lemma_all_incremented(m: Map<usize, u8>, base: usize, n: nat)
    requires
        n <= THP_NR_4K_PAGES,
        base + PAGE_SIZE_2M <= usize::MAX,
        block_has_room(m, base),
    ensures
        forall|i: int|
            0 <= i < n ==> count(all_incremented(m, base, n), #[trigger] sub_frame(base, i)) == count(
                m,
                sub_frame(base, i),
            ) + 1,
        forall|p: usize|
            (forall|i: int| 0 <= i < n ==> p != #[trigger] sub_frame(base, i)) ==> #[trigger] count(
                all_incremented(m, base, n),
                p,
            ) == count(m, p),
    decreases n,
{
    if n > 0 {
        let k = (n - 1) as nat;
        lemma_all_incremented(m, base, k);
        let a = all_incremented(m, base, k);
        let q = sub_frame(base, k as int);
        assert(forall|i: int| 0 <= i < k ==> q != #[trigger] sub_frame(base, i));
        assert(count(a, q) == count(m, q));
        assert(count(m, q) < u8::MAX);
        assert forall|p: usize| (forall|i: int| 0 <= i < n ==> p != #[trigger] sub_frame(base, i)) implies #[trigger] count(
            all_incremented(m, base, n),
            p,
        ) == count(m, p) by {
            assert(p != sub_frame(base, k as int));
            assert(count(a, p) == count(m, p));
        }
    }
}

/// The first `n` small frames have one mapping less, as far as they had one, all
/// other frames as many as before.
pub proof fn lemma_all_decremented(m: Map<usize, u8>, base: usize, n: nat)
    requires
        n <= THP_NR_4K_PAGES,
        base + PAGE_SIZE_2M <= usize::MAX,
    ensures
        forall|i: int|
            0 <= i < n ==> count(all_decremented(m, base, n), #[trigger] sub_frame(base, i)) == (
            if count(m, sub_frame(base, i)) == 0 {
                0
            } else {
                count(m, sub_frame(base, i)) - 1
            }),
        forall|p: usize|
            (forall|i: int| 0 <= i < n ==> p != #[trigger] sub_frame(base, i)) ==> #[trigger] count(
                all_decremented(m, base, n),
                p,
            ) == count(m, p),
    decreases n,
{
    if n > 0 {
        let k = (n - 1) as nat;
        lemma_all_decremented(m, base, k);
        let a = all_decremented(m, base, k);
        let q = sub_frame(base, k as int);
        assert(forall|i: int| 0 <= i < k ==> q != #[trigger] sub_frame(base, i));
        assert(count(a, q) == count(m, q));
        assert forall|p: usize| (forall|i: int| 0 <= i < n ==> p != #[trigger] sub_frame(base, i)) implies #[trigger] count(
            all_decremented(m, base, n),
            p,
        ) == count(m, p) by {
            assert(p != sub_frame(base, k as int));
            assert(count(a, p) == count(m, p));
        }
    }
}

/// A new mapping that is counted and counted off again leaves every count as it
/// was.
pub proof fn law_inc_then_dec(m: Map<usize, u8>, paddr: usize)
    requires
        counts_ok(m),
        count(m, paddr) < u8::MAX,
    ensures
        decremented(incremented(m, paddr), paddr) == m,
{
    let i = incremented(m, paddr);
    assert(count(i, paddr) == count(m, paddr) + 1);
    if count(m, paddr) == 0 {
        assert(i.remove(paddr) =~= m);
    } else {
        assert(decremented(i, paddr) =~= m);
    }
}

/// A frame is given back exactly when its last mapping is counted off.
pub proof fn law_given_back_with_the_last(m: Map<usize, u8>, paddr: usize, size: PageSize)
    requires
        counts_ok(m),
    ensures
        (dropped(m, paddr, size).len() > 0) == (count(m, paddr) > 0 && count(
            decremented(m, paddr),
            paddr,
        ) == 0),
{
}

} // verus!
