//! How the mappings of frames are counted.

use vstd::prelude::*;
use crate::addr::PageSize;
use crate::effect::Effect;
use crate::mm::frames::{
    all_decremented, all_dropped, all_incremented, count, list_decremented, list_dropped, FrameTable,
};

verus! {

/// A mapping that is counted makes the count of its frame greater by one, and one
/// that is counted off makes it less by one. The counts of other frames stay. How
/// many mappings there were is told, and a frame is given back with its last one.
pub proof fn law_mappings_are_counted(
    a: &mut FrameTable,
    b: &mut FrameTable,
    c: &mut FrameTable,
    paddr: usize,
    size: PageSize,
    effects: &mut Vec<Effect>,
    q: usize,
    were: usize,
    before: u8,
    counted: u8,
    off: u8,
    dropped: u8,
    had: u8,
)
    requires
        *b == *a,
        *c == *a,
        call_ensures(FrameTable::frame_ref_count, (&*old(a), q), before),
        call_ensures(FrameTable::frame_ref_count, (&*old(a), paddr), had),
        had < 255,
        call_ensures(FrameTable::inc_frame_ref, (a, paddr), ()),
        call_ensures(FrameTable::dec_frame_ref, (b, paddr), were),
        call_ensures(FrameTable::drop_frame_ref, (c, paddr, size, effects), ()),
        call_ensures(FrameTable::frame_ref_count, (&*final(a), q), counted),
        call_ensures(FrameTable::frame_ref_count, (&*final(b), q), off),
        call_ensures(FrameTable::frame_ref_count, (&*final(c), q), dropped),
    ensures
        counted == before + (if q == paddr {
            1int
        } else {
            0
        }),
        off == before - (if q == paddr && before > 0 {
            1int
        } else {
            0
        }),
        dropped == off,
        were == had,
        had == 1 ==> final(effects)@ == old(effects)@.push(Effect::FreeFrame { paddr, size }),
        had != 1 ==> final(effects)@ == old(effects)@,
{
    if had == 1 {
        assert(final(effects)@ =~= old(effects)@.push(Effect::FreeFrame { paddr, size }));
    } else {
        assert(final(effects)@ =~= old(effects)@);
    }
}

/// Whether a frame is one of the first `n` small ones of a huge one.
pub open spec fn in_block(base: usize, n: int, q: usize) -> bool {
    base <= q < base + n * 4096 && (q - base) % 4096 == 0
}

proof fn lemma_block_incremented(m: Map<usize, u8>, base: usize, n: nat, q: usize)
    requires
        base + n * 4096 <= usize::MAX,
        in_block(base, n as int, q) ==> count(m, q) < 255,
    ensures
        count(all_incremented(m, base, n), q) == count(m, q) + (if in_block(base, n as int, q) {
            1int
        } else {
            0
        }),
    decreases n,
{
    if n > 0 {
        lemma_block_incremented(m, base, (n - 1) as nat, q);
    }
}

proof fn lemma_block_dropped(m: Map<usize, u8>, base: usize, n: nat)
    requires
        base + n * 4096 <= usize::MAX,
    ensures
        forall|q: usize| #[trigger]
            count(all_decremented(m, base, n), q) == count(m, q) - (if in_block(base, n as int, q)
                && count(m, q) > 0 {
                1int
            } else {
                0
            }),
        forall|i: int|
            0 <= i < all_dropped(m, base, n).len() ==> ((#[trigger] all_dropped(m, base, n)[i]) matches Effect::FreeFrame {
                paddr,
                size,
            } && size is Size4K && in_block(base, n as int, paddr) && count(m, paddr) == 1),
        forall|q: usize| #[trigger]
            in_block(base, n as int, q) && count(m, q) == 1 ==> all_dropped(m, base, n).contains(
                Effect::FreeFrame { paddr: q, size: PageSize::Size4K },
            ),
        all_dropped(m, base, n).no_duplicates(),
    decreases n,
{
    if n > 0 {
        let k = (n - 1) as nat;
        lemma_block_dropped(m, base, k);
        let front = all_dropped(m, base, k);
        let last = (base + k * 4096) as usize;
        let all = all_dropped(m, base, n);
        assert(!in_block(base, k as int, last));
        assert(count(all_decremented(m, base, k), last) == count(m, last));
        assert forall|q: usize| #[trigger]
            count(all_decremented(m, base, n), q) == count(m, q) - (if in_block(base, n as int, q)
                && count(m, q) > 0 {
                1int
            } else {
                0
            }) by {
            assert(count(all_decremented(m, base, k), q) == count(m, q) - (if in_block(
                base,
                k as int,
                q,
            ) && count(m, q) > 0 {
                1int
            } else {
                0
            }));
            assert(in_block(base, n as int, q) <==> in_block(base, k as int, q) || q == last);
        }
        assert forall|q: usize| #[trigger] in_block(base, n as int, q) && count(m, q) == 1 implies all.contains(
            Effect::FreeFrame { paddr: q, size: PageSize::Size4K },
        ) by {
            let e = Effect::FreeFrame { paddr: q, size: PageSize::Size4K };
            if q == last {
                assert(all[front.len() as int] == e);
            } else {
                assert(in_block(base, k as int, q));
                let i = choose|i: int| 0 <= i < front.len() && front[i] == e;
                assert(all[i] == e);
            }
        }
        assert forall|i: int| 0 <= i < all.len() implies ((#[trigger] all[i]) matches Effect::FreeFrame {
            paddr,
            size,
        } && size is Size4K && in_block(base, n as int, paddr) && count(m, paddr) == 1) by {
            if i < front.len() {
                assert(all[i] == front[i]);
            }
        }
        assert forall|i: int, j: int| 0 <= i < all.len() && 0 <= j < all.len() && i != j implies all[i]
            != all[j] by {
            if i < front.len() {
                assert(all[i] == front[i]);
            }
            if j < front.len() {
                assert(all[j] == front[j]);
            }
        }
    }
}

/// A mapping of a huge frame in small ones that is counted makes the count of each of
/// its small frames greater by one, and one that is counted off makes it less by one.
/// The counts of other frames stay. Each small frame is given back once if it loses
/// its last mapping, and no other.
pub proof fn law_mappings_of_a_block_are_counted(
    a: &mut FrameTable,
    b: &mut FrameTable,
    base: usize,
    effects: &mut Vec<Effect>,
    q: usize,
    before: u8,
    counted: u8,
    off: u8,
)
    requires
        base + 2_097_152 <= usize::MAX,
        *b == *a,
        call_ensures(FrameTable::frame_ref_count, (&*old(a), q), before),
        before < 255,
        call_ensures(FrameTable::inc_block, (a, base), ()),
        call_ensures(FrameTable::drop_block, (b, base, effects), ()),
        call_ensures(FrameTable::frame_ref_count, (&*final(a), q), counted),
        call_ensures(FrameTable::frame_ref_count, (&*final(b), q), off),
    ensures
        ({
            let inside = base <= q < base + 2_097_152 && (q - base) % 4096 == 0;
            let had = old(effects)@.len() as int;
            let more = final(effects)@.skip(had);
            &&& counted == before + (if inside {
                1int
            } else {
                0
            })
            &&& off == before - (if inside && before > 0 {
                1int
            } else {
                0
            })
            &&& final(effects)@.take(had) == old(effects)@
            &&& more.no_duplicates()
            &&& more.contains(Effect::FreeFrame { paddr: q, size: PageSize::Size4K }) <==> inside
                && before == 1
            &&& forall|i: int|
                0 <= i < more.len() ==> ((#[trigger] more[i]) matches Effect::FreeFrame { size, .. }
                    && size is Size4K)
        }),
{
    let m = old(a)@;
    lemma_block_incremented(m, base, 512, q);
    lemma_block_dropped(m, base, 512);
    let had = old(effects)@.len() as int;
    assert(final(effects)@.skip(had) =~= all_dropped(m, base, 512));
    assert(final(effects)@.take(had) =~= old(effects)@);
    assert(count(all_decremented(m, base, 512), q) == off);
    let e = Effect::FreeFrame { paddr: q, size: PageSize::Size4K };
    let more = all_dropped(m, base, 512);
    if in_block(base, 512, q) && before == 1 {
        assert(more.contains(e));
    }
}

/// The number of times that a frame is in a list.
pub open spec fn times(list: Seq<usize>, q: usize) -> nat {
    list.filter(|p: usize| p == q).len()
}

proof fn lemma_list_dropped(m: Map<usize, u8>, list: Seq<usize>, q: usize)
    ensures
        count(list_decremented(m, list), q) == (if times(list, q) < count(m, q) {
            count(m, q) - times(list, q)
        } else {
            0
        }),
        list_dropped(m, list).contains(Effect::FreeFrame { paddr: q, size: PageSize::Size4K }) <==> 0
            < count(m, q) <= times(list, q),
        forall|i: int|
            0 <= i < list_dropped(m, list).len() ==> ((#[trigger] list_dropped(m, list)[i]) matches Effect::FreeFrame {
                size,
                ..
            } && size is Size4K),
    decreases list.len(),
{
    reveal(Seq::filter);
    if list.len() > 0 {
        let d = list.drop_last();
        lemma_list_dropped(m, d, q);
        let front = list_dropped(m, d);
        let all = list_dropped(m, list);
        let e = Effect::FreeFrame { paddr: q, size: PageSize::Size4K };
        assert(times(list, q) == times(d, q) + (if list.last() == q {
            1int
        } else {
            0
        }));
        if front.contains(e) {
            let i = choose|i: int| 0 <= i < front.len() && front[i] == e;
            assert(all[i] == e);
        }
        if list.last() == q && count(list_decremented(m, d), q) == 1 {
            assert(all[front.len() as int] == e);
        }
        if all.contains(e) {
            let i = choose|i: int| 0 <= i < all.len() && all[i] == e;
            if i < front.len() {
                assert(front[i] == e);
            }
        }
        assert forall|i: int| 0 <= i < all.len() implies ((#[trigger] all[i]) matches Effect::FreeFrame {
            size,
            ..
        } && size is Size4K) by {
            if i < front.len() {
                assert(all[i] == front[i]);
            }
        }
    }
}

/// Each frame of a list loses as many mappings as it is there times, and is given back
/// if that were all it had.
pub proof fn law_mappings_of_a_list_are_counted_off(
    a: &mut FrameTable,
    list: Vec<usize>,
    effects: &mut Vec<Effect>,
    q: usize,
    before: u8,
    off: u8,
)
    requires
        call_ensures(FrameTable::frame_ref_count, (&*old(a), q), before),
        call_ensures(FrameTable::drop_list, (a, &list, effects), ()),
        call_ensures(FrameTable::frame_ref_count, (&*final(a), q), off),
    ensures
        ({
            let n = times(list@, q);
            let had = old(effects)@.len() as int;
            let more = final(effects)@.skip(had);
            &&& off == (if n < before {
                before - n
            } else {
                0
            })
            &&& final(effects)@.take(had) == old(effects)@
            &&& more.contains(Effect::FreeFrame { paddr: q, size: PageSize::Size4K }) <==> 0 < before
                <= n
            &&& forall|i: int|
                0 <= i < more.len() ==> ((#[trigger] more[i]) matches Effect::FreeFrame { size, .. }
                    && size is Size4K)
        }),
{
    lemma_list_dropped(old(a)@, list@, q);
    let had = old(effects)@.len() as int;
    assert(final(effects)@.skip(had) =~= list_dropped(old(a)@, list@));
    assert(final(effects)@.take(had) =~= old(effects)@);
}

/// At first no frame has a mapping.
pub proof fn law_no_frame_is_counted_at_first(t: FrameTable, q: usize, n: u8)
    requires
        call_ensures(FrameTable::new, (), t),
        call_ensures(FrameTable::frame_ref_count, (&t, q), n),
    ensures
        n == 0,
{
}

} // verus!
