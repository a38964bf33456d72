//! What the operations on mappings do to a page table and to memory.
//!
//! The laws of the mappings are stated of a space in which requests are
//! answered without failure, but for the answer that a page is not mapped. Where
//! a law admits failures, a request that is refused leaves the space as it is.

use vstd::prelude::*;
use crate::addr::{PageSize, VirtAddrRange, PAGE_SIZE_4K};
use crate::effect::{Effect, Reply, Request};
use crate::error::PagingError;
use crate::flags::MappingFlags;
use crate::fs::world::{area, available, loaded, stored, zeros, World};
use crate::mm::frames::count;

verus! {

/// How a small page is mapped: the address of its memory, its rights, and the
/// size of the page of the page table that it is part of.
pub struct PageEntry {
    pub paddr: int,
    pub flags: MappingFlags,
    pub size: PageSize,
}

/// The space around a mapping.
pub struct Space {
    /// The mapped small pages by their numbers.
    pub table: Map<int, PageEntry>,
    /// The same in the page table of the copy.
    pub copy: Map<int, PageEntry>,
    /// What the file holds.
    pub file: Seq<u8>,
    /// What memory holds.
    pub mem: Map<int, u8>,
    /// The addresses whose memory belongs to nobody.
    pub free: Set<int>,
}

/// The number of the small page at an address.
pub open spec fn number(va: usize) -> int {
    va as int / PAGE_SIZE_4K as int
}

/// The number of small pages in a page.
pub open spec fn small_pages(size: PageSize) -> int {
    match size {
        PageSize::Size4K => 1,
        PageSize::Size2M => 512,
        PageSize::Size1G => 262_144,
    }
}

/// Whether two small pages lie in the same page of a size.
pub open spec fn same_block(p: int, q: int, size: PageSize) -> bool {
    p / small_pages(size) == q / small_pages(size)
}

/// Whether a small page is the first of a page of a size.
pub open spec fn leads(p: int, size: PageSize) -> bool {
    p % small_pages(size) == 0
}

/// Whether a page table is one: the small pages of a page are mapped together,
/// one behind the other.
pub open spec fn table_ok(t: Map<int, PageEntry>) -> bool {
    &&& forall|p: int| #[trigger]
        t.dom().contains(p) ==> 0 <= t[p].paddr && t[p].paddr + PAGE_SIZE_4K <= usize::MAX
    &&& forall|p: int, q: int|
        #![trigger t.dom().contains(p), t.dom().contains(q)]
        #![trigger same_block(p, q, t[p].size)]
        t.dom().contains(p) && same_block(p, q, t[p].size) ==> {
            &&& t.dom().contains(q)
            &&& t[q].size == t[p].size
            &&& t[q].flags == t[p].flags
            &&& t[q].paddr - t[p].paddr == (q - p) * PAGE_SIZE_4K
        }
}

/// A page table without the page around a small one.
pub open spec fn taken(t: Map<int, PageEntry>, p: int) -> Map<int, PageEntry> {
    Map::new(
        |q: int| t.dom().contains(q) && !same_block(p, q, t[p].size),
        |q: int| t[q],
    )
}

/// A page table in which the huge page around a small one is small pages.
pub open spec fn divided(t: Map<int, PageEntry>, p: int) -> Map<int, PageEntry> {
    Map::new(
        |q: int| t.dom().contains(q),
        |q: int|
            if same_block(p, q, PageSize::Size2M) {
                PageEntry { size: PageSize::Size4K, ..t[q] }
            } else {
                t[q]
            },
    )
}

/// A page table with a page more, whose first small page is `p`.
pub open spec fn placed(
    t: Map<int, PageEntry>,
    p: int,
    paddr: int,
    size: PageSize,
    flags: MappingFlags,
) -> Map<int, PageEntry> {
    Map::new(
        |q: int| t.dom().contains(q) || same_block(p, q, size),
        |q: int|
            if same_block(p, q, size) {
                PageEntry { paddr: paddr + (q - p) * PAGE_SIZE_4K, flags, size }
            } else {
                t[q]
            },
    )
}

/// A page table in which the page around a small one has other rights.
pub open spec fn protected(t: Map<int, PageEntry>, p: int, flags: MappingFlags) -> Map<
    int,
    PageEntry,
> {
    Map::new(
        |q: int| t.dom().contains(q),
        |q: int|
            if same_block(p, q, t[p].size) {
                PageEntry { flags, ..t[q] }
            } else {
                t[q]
            },
    )
}

/// Whether a page can be mapped: its addresses are those of a page, and none of
/// it is mapped.
pub open spec fn vacant(t: Map<int, PageEntry>, va: usize, paddr: usize, size: PageSize) -> bool {
    &&& va as int % size.bytes() as int == 0
    &&& paddr + size.bytes() <= usize::MAX
    &&& forall|q: int| same_block(number(va), q, size) ==> !#[trigger] t.dom().contains(q)
}

impl Space {
    /// The file and memory, as a world around a cached file without readers and
    /// writers.
    pub open spec fn around(self) -> World {
        World {
            file: self.file,
            mem: self.mem,
            free: self.free,
            input: Seq::empty(),
            output: Seq::empty(),
        }
    }

    /// The space after one effect.
    pub open spec fn performed(self, effect: Effect) -> Space {
        match effect {
            Effect::FreePage(page) => Space {
                free: self.free.union(area(page.paddr as int, page.size as int)),
                ..self
            },
            Effect::FreeFrame { paddr, size } => Space {
                free: self.free.union(area(paddr as int, size.bytes() as int)),
                ..self
            },
            Effect::Copy { src, dst, len } => Space {
                mem: stored(self.mem, dst as int, loaded(self.mem, src as int, len as nat)),
                ..self
            },
            Effect::Zero { paddr, len } => Space {
                mem: stored(self.mem, paddr as int, zeros(len as nat)),
                ..self
            },
            _ => self,
        }
    }

    /// The space after effects, one after the other.
    pub open spec fn all_performed(self, effects: Seq<Effect>) -> Space
        decreases effects.len(),
    {
        if effects.len() == 0 {
            self
        } else {
            self.all_performed(effects.drop_last()).performed(effects.last())
        }
    }

    /// Whether the space can answer a request with a reply, and is `after` then.
    /// A frame or a page is allocated from memory that belongs to nobody.
    pub open spec fn answers(self, request: Request, reply: Reply, after: Space) -> bool {
        let t = self.table;
        match request {
            Request::Query { va } => {
                &&& after == self
                &&& if t.dom().contains(number(va)) {
                    reply matches Reply::Entry { paddr, flags, size } && paddr == t[number(va)].paddr
                        + va as int % PAGE_SIZE_4K as int && flags == t[number(va)].flags && size
                        == t[number(va)].size
                } else {
                    reply == Reply::Fault(PagingError::NotMapped)
                }
            },
            Request::UnmapPage { va } => if t.dom().contains(number(va)) {
                &&& reply is Done
                &&& after == (Space { table: taken(t, number(va)), ..self })
            } else {
                &&& reply == Reply::Fault(PagingError::NotMapped)
                &&& after == self
            },
            Request::SplitHuge { va } => {
                &&& t.dom().contains(number(va))
                &&& t[number(va)].size is Size2M
                &&& reply is Done
                &&& after == (Space { table: divided(t, number(va)), ..self })
            },
            Request::MapPage { va, paddr, size, flags } => {
                &&& vacant(t, va, paddr, size)
                &&& reply is Done
                &&& after == (Space {
                    table: placed(t, number(va), paddr as int, size, flags),
                    ..self
                })
            },
            Request::MapInCopy { va, paddr, size, flags } => {
                &&& vacant(self.copy, va, paddr, size)
                &&& reply is Done
                &&& after == (Space {
                    copy: placed(self.copy, number(va), paddr as int, size, flags),
                    ..self
                })
            },
            Request::Protect { va, flags } => {
                &&& t.dom().contains(number(va))
                &&& reply is Done
                &&& after == (Space { table: protected(t, number(va), flags), ..self })
            },
            Request::Remap { va, paddr, flags } => {
                let size = t[number(va)].size;
                &&& t.dom().contains(number(va))
                &&& va as int % size.bytes() as int == 0
                &&& paddr + size.bytes() <= usize::MAX
                &&& reply is Done
                &&& after == (Space {
                    table: placed(t, number(va), paddr as int, size, flags),
                    ..self
                })
            },
            Request::RemapHuge { va, paddr, flags } => {
                &&& va as int % PageSize::Size2M.bytes() as int == 0
                &&& paddr + PageSize::Size2M.bytes() <= usize::MAX
                &&& reply is Done
                &&& after == (Space {
                    table: placed(t, number(va), paddr as int, PageSize::Size2M, flags),
                    ..self
                })
            },
            Request::AllocFrame { zeroed, size } => match reply {
                Reply::Addr(paddr) => {
                    let bytes = size.bytes();
                    &&& paddr + bytes <= usize::MAX
                    &&& area(paddr as int, bytes as int).subset_of(self.free)
                    &&& after == (Space {
                        free: self.free.difference(area(paddr as int, bytes as int)),
                        mem: if zeroed {
                            stored(self.mem, paddr as int, zeros(bytes as nat))
                        } else {
                            self.mem
                        },
                        ..self
                    })
                },
                _ => false,
            },
            Request::AllocPage { bytes } => match reply {
                Reply::Addr(paddr) => {
                    &&& paddr + bytes <= usize::MAX
                    &&& area(paddr as int, bytes as int).subset_of(self.free)
                    &&& after == (Space {
                        free: self.free.difference(area(paddr as int, bytes as int)),
                        ..self
                    })
                },
                _ => false,
            },
            Request::FileRead { paddr, len, offset } => {
                let n = available(self.file, offset as nat, len as nat);
                &&& reply is Done
                &&& after == (Space {
                    mem: stored(
                        self.mem,
                        paddr as int,
                        Seq::new(n, |i: int| self.file[offset + i]),
                    ),
                    ..self
                })
            },
            _ => false,
        }
    }
}

/// Effects do to the file and memory of a space what they do to those of a world,
/// and leave the page tables alone.
pub proof fn lemma_around(s: Space, effects: Seq<Effect>)
    ensures
        s.all_performed(effects).around() == s.around().all_performed(effects),
        s.all_performed(effects).table == s.table,
        s.all_performed(effects).copy == s.copy,
    decreases effects.len(),
{
    if effects.len() > 0 {
        lemma_around(s, effects.drop_last());
    }
}

pub proof fn lemma_performed_behind(s: Space, a: Seq<Effect>, b: Seq<Effect>)
    ensures
        s.all_performed(a + b) == s.all_performed(a).all_performed(b),
    decreases b.len(),
{
    if b.len() == 0 {
        assert(a + b =~= a);
    } else {
        assert((a + b).drop_last() =~= a + b.drop_last());
        lemma_performed_behind(s, a, b.drop_last());
    }
}

/// Whether a reply tells that a request failed, for another reason than that a
/// page is not mapped.
pub open spec fn refused(reply: Reply) -> bool {
    reply matches Reply::Fault(e) && !(e is NotMapped)
}

/// Whether a small page lies in a range.
pub open spec fn within(range: VirtAddrRange, p: int) -> bool {
    range.start <= p * PAGE_SIZE_4K < range.end
}

/// Whether a mapping with pages of a size holds only pages of that size in a
/// range, and, if that is the small size, huge ones.
pub open spec fn tiled(t: Map<int, PageEntry>, range: VirtAddrRange, size: PageSize) -> bool {
    forall|p: int| #[trigger]
        t.dom().contains(p) && within(range, p) ==> t[p].size == size || (size is Size4K
            && t[p].size is Size2M)
}

/// The rights of the first mapped page among the `n` small pages from `p` on.
pub open spec fn first_rights(t: Map<int, PageEntry>, p: int, n: int) -> Option<MappingFlags>
    decreases n,
{
    if n <= 0 {
        None
    } else if first_rights(t, p, n - 1) is Some {
        first_rights(t, p, n - 1)
    } else if t.dom().contains(p + n - 1) {
        Some(t[p + n - 1].flags)
    } else {
        None
    }
}

/// Whether a page table maps a small page as another did before, to the same
/// memory with the same rights. A page that it was part of may have been divided.
pub open spec fn alike(t: Map<int, PageEntry>, u: Map<int, PageEntry>, p: int) -> bool {
    &&& t.dom().contains(p) == u.dom().contains(p)
    &&& t.dom().contains(p) ==> {
        &&& t[p].paddr == u[p].paddr
        &&& t[p].flags == u[p].flags
        &&& t[p].size == u[p].size || t[p].size is Size4K
    }
}

/// The pages of a size in a range that are mapped to a frame.
pub open spec fn users(t: Map<int, PageEntry>, range: VirtAddrRange, size: PageSize, frame: usize) -> Set<
    int,
> {
    Set::new(
        |p: int|
            t.dom().contains(p) && within(range, p) && leads(p, size) && t[p].paddr == frame as int,
    )
}

/// How often a frame is mapped in a range.
pub open spec fn uses(t: Map<int, PageEntry>, range: VirtAddrRange, size: PageSize, frame: usize) -> nat {
    users(t, range, size, frame).len()
}

/// Whether the count of each frame is the number of its mappings in a range and
/// of its mappings elsewhere.
pub open spec fn accounted(
    t: Map<int, PageEntry>,
    range: VirtAddrRange,
    size: PageSize,
    frames: Map<usize, u8>,
    elsewhere: spec_fn(usize) -> nat,
) -> bool {
    forall|frame: usize| #[trigger]
        count(frames, frame) == elsewhere(frame) + uses(t, range, size, frame)
}

/// The users of a frame are finitely many.
pub proof fn lemma_users_finite(
    t: Map<int, PageEntry>,
    range: VirtAddrRange,
    size: PageSize,
    frame: usize,
)
    ensures
        users(t, range, size, frame).finite(),
{
    let all = vstd::set_lib::set_int_range(0, range.end as int);
    vstd::set_lib::lemma_int_range(0, range.end as int);
    let u = users(t, range, size, frame);
    assert(u.subset_of(all)) by {
        assert forall|p: int| u.contains(p) implies #[trigger] all.contains(p) by {
            assert(within(range, p));
        }
    }
    vstd::set_lib::lemma_len_subset(u, all);
}

/// A frame loses the user `p`.
pub proof fn lemma_user_gone(
    t: Map<int, PageEntry>,
    u: Map<int, PageEntry>,
    range: VirtAddrRange,
    size: PageSize,
    frame: usize,
    p: int,
)
    requires
        users(t, range, size, frame).contains(p),
        users(u, range, size, frame) =~= users(t, range, size, frame).remove(p),
    ensures
        uses(u, range, size, frame) == uses(t, range, size, frame) - 1,
        uses(t, range, size, frame) > 0,
{
    lemma_users_finite(t, range, size, frame);
    lemma_users_finite(u, range, size, frame);
}

/// A frame gets the user `p`.
pub proof fn lemma_user_come(
    t: Map<int, PageEntry>,
    u: Map<int, PageEntry>,
    range: VirtAddrRange,
    size: PageSize,
    frame: usize,
    p: int,
)
    requires
        !users(t, range, size, frame).contains(p),
        users(u, range, size, frame) =~= users(t, range, size, frame).insert(p),
    ensures
        uses(u, range, size, frame) == uses(t, range, size, frame) + 1,
{
    lemma_users_finite(t, range, size, frame);
    lemma_users_finite(u, range, size, frame);
}

/// A frame that is mapped has a use.
pub proof fn lemma_used(
    t: Map<int, PageEntry>,
    range: VirtAddrRange,
    size: PageSize,
    frame: usize,
    p: int,
)
    requires
        users(t, range, size, frame).contains(p),
    ensures
        uses(t, range, size, frame) > 0,
{
    lemma_users_finite(t, range, size, frame);
    if users(t, range, size, frame).len() == 0 {
        assert(users(t, range, size, frame) =~= Set::empty());
    }
}

/// Taking a page away leaves a page table.
pub proof fn lemma_taken(t: Map<int, PageEntry>, p: int)
    requires
        table_ok(t),
        t.dom().contains(p),
    ensures
        table_ok(taken(t, p)),
        forall|q: int| !same_block(p, q, t[p].size) ==> #[trigger] alike(taken(t, p), t, q),
{
    let u = taken(t, p);
    let size = t[p].size;
    assert forall|a: int, b: int|
        #![trigger u.dom().contains(a), u.dom().contains(b)]
        #![trigger same_block(a, b, u[a].size)]
        u.dom().contains(a) && same_block(a, b, u[a].size) implies {
        &&& u.dom().contains(b)
        &&& u[b].size == u[a].size
        &&& u[b].flags == u[a].flags
        &&& u[b].paddr - u[a].paddr == (b - a) * PAGE_SIZE_4K
    } by {
        assert(t.dom().contains(a) && same_block(a, b, t[a].size));
        if same_block(p, b, size) {
            assert(t[b].size == size);
            assert(same_block(p, a, size));
        }
    }
}

/// Dividing a huge page leaves a page table that maps every page alike.
pub proof fn lemma_divided(t: Map<int, PageEntry>, p: int)
    requires
        table_ok(t),
        t.dom().contains(p),
        t[p].size is Size2M,
    ensures
        table_ok(divided(t, p)),
        divided(t, p).dom().contains(p),
        divided(t, p)[p].size is Size4K,
        forall|q: int| #[trigger] alike(divided(t, p), t, q),
{
    let u = divided(t, p);
    assert forall|a: int, b: int|
        #![trigger u.dom().contains(a), u.dom().contains(b)]
        #![trigger same_block(a, b, u[a].size)]
        u.dom().contains(a) && same_block(a, b, u[a].size) implies {
        &&& u.dom().contains(b)
        &&& u[b].size == u[a].size
        &&& u[b].flags == u[a].flags
        &&& u[b].paddr - u[a].paddr == (b - a) * PAGE_SIZE_4K
    } by {
        if !same_block(p, a, PageSize::Size2M) {
            assert(t.dom().contains(a) && same_block(a, b, t[a].size));
            if same_block(p, b, PageSize::Size2M) {
                assert(same_block(p, b, t[p].size));
                assert(t[b].size is Size2M);
            }
        }
    }
}

/// A page of a size at an aligned address is made of the small pages from it on.
pub proof fn lemma_block_at(va: usize, size: PageSize, q: int)
    requires
        va as int % size.bytes() as int == 0,
    ensures
        same_block(number(va), q, size) == (va <= q * PAGE_SIZE_4K < va + size.bytes()),
        leads(number(va), size),
        number(va) * PAGE_SIZE_4K == va,
{
    let p = number(va);
    match size {
        PageSize::Size4K => {
            assert(va as int % 4096 == 0);
            assert(small_pages(size) == 1);
            assert(p / 1 == p && q / 1 == q);
        },
        PageSize::Size2M => {
            assert(va as int % 2_097_152 == 0);
            assert(small_pages(size) == 512);
            assert(p % 512 == 0);
            assert((p / 512 == q / 512) == (p <= q < p + 512));
        },
        PageSize::Size1G => {
            assert(va as int % 1_073_741_824 == 0);
            assert(small_pages(size) == 262_144);
            assert(p % 262_144 == 0);
            assert((p / 262_144 == q / 262_144) == (p <= q < p + 262_144));
        },
    }
}

/// A page at an aligned address in an aligned range ends in the range.
pub proof fn lemma_fits(va: usize, range: VirtAddrRange, size: PageSize)
    requires
        range.aligned_to(size),
        range.start <= va < range.end,
        va as int % size.bytes() as int == 0,
    ensures
        va + size.bytes() <= range.end,
        (va + size.bytes()) % size.bytes() as int == 0,
{
    match size {
        PageSize::Size4K => {
            assert(va as int % 4096 == 0 && range.end as int % 4096 == 0);
            assert((va + 4096) % 4096 == 0);
        },
        PageSize::Size2M => {
            assert(va as int % 2_097_152 == 0 && range.end as int % 2_097_152 == 0);
            assert((va + 2_097_152) % 2_097_152 == 0);
        },
        PageSize::Size1G => {
            assert(va as int % 1_073_741_824 == 0 && range.end as int % 1_073_741_824 == 0);
            assert((va + 1_073_741_824) % 1_073_741_824 == 0);
        },
    }
}

/// A page that lies in another with a small page of it lies in it whole.
pub proof fn lemma_nested(a: int, b: int, p: int, inner: PageSize, outer: PageSize)
    requires
        same_block(a, b, inner),
        same_block(p, b, outer),
        small_pages(inner) <= small_pages(outer),
    ensures
        same_block(p, a, outer),
{
    match outer {
        PageSize::Size4K => {
            assert(small_pages(inner) == 1 && small_pages(outer) == 1);
        },
        PageSize::Size2M => {
            assert(small_pages(outer) == 512);
            match inner {
                PageSize::Size4K => {
                    assert(small_pages(inner) == 1);
                    assert(a / 1 == a && b / 1 == b);
                },
                _ => {},
            }
        },
        PageSize::Size1G => {
            assert(small_pages(outer) == 262_144);
            match inner {
                PageSize::Size4K => {
                    assert(small_pages(inner) == 1);
                    assert(a / 1 == a && b / 1 == b);
                },
                PageSize::Size2M => {
                    assert(small_pages(inner) == 512);
                    assert(a / 512 == b / 512);
                    assert(a / 262_144 == b / 262_144);
                },
                PageSize::Size1G => {},
            }
        },
    }
}

/// The first small page of a page is the one it starts with.
pub proof fn lemma_leader(p: int, q: int, size: PageSize)
    requires
        leads(p, size),
        same_block(p, q, size),
    ensures
        p <= q < p + small_pages(size),
        leads(q, size) ==> q == p,
{
    match size {
        PageSize::Size4K => {
            assert(small_pages(size) == 1);
            assert(p / 1 == p && q / 1 == q);
        },
        PageSize::Size2M => {
            assert(small_pages(size) == 512);
            assert(p % 512 == 0 && p / 512 == q / 512);
        },
        PageSize::Size1G => {
            assert(small_pages(size) == 262_144);
            assert(p % 262_144 == 0 && p / 262_144 == q / 262_144);
        },
    }
}

/// Placing a page over pages that are not larger leaves a page table.
pub proof fn lemma_placed(
    t: Map<int, PageEntry>,
    p: int,
    paddr: int,
    size: PageSize,
    flags: MappingFlags,
)
    requires
        table_ok(t),
        leads(p, size),
        0 <= paddr,
        paddr + size.bytes() <= usize::MAX,
        forall|q: int|
            same_block(p, q, size) && #[trigger] t.dom().contains(q) ==> small_pages(t[q].size)
                <= small_pages(size),
    ensures
        table_ok(placed(t, p, paddr, size, flags)),
        forall|q: int|
            !same_block(p, q, size) ==> #[trigger] alike(placed(t, p, paddr, size, flags), t, q),
{
    let u = placed(t, p, paddr, size, flags);
    assert(size.bytes() == small_pages(size) * PAGE_SIZE_4K);
    assert forall|q: int| #[trigger] u.dom().contains(q) implies 0 <= u[q].paddr && u[q].paddr
        + PAGE_SIZE_4K <= usize::MAX by {
        if same_block(p, q, size) {
            lemma_leader(p, q, size);
        } else {
            assert(t.dom().contains(q));
        }
    }
    assert forall|a: int, b: int|
        #![trigger u.dom().contains(a), u.dom().contains(b)]
        #![trigger same_block(a, b, u[a].size)]
        u.dom().contains(a) && same_block(a, b, u[a].size) implies {
        &&& u.dom().contains(b)
        &&& u[b].size == u[a].size
        &&& u[b].flags == u[a].flags
        &&& u[b].paddr - u[a].paddr == (b - a) * PAGE_SIZE_4K
    } by {
        if same_block(p, a, size) {
            assert(same_block(p, b, size));
        } else {
            assert(t.dom().contains(a) && same_block(a, b, t[a].size));
            if same_block(p, b, size) {
                assert(t.dom().contains(b));
                assert(same_block(a, b, t[b].size));
                lemma_nested(a, b, p, t[b].size, size);
            }
        }
    }
}

/// Changing the rights of a page leaves a page table.
pub proof fn lemma_protected(t: Map<int, PageEntry>, p: int, flags: MappingFlags)
    requires
        table_ok(t),
        t.dom().contains(p),
    ensures
        table_ok(protected(t, p, flags)),
        forall|q: int|
            !same_block(p, q, t[p].size) ==> #[trigger] alike(protected(t, p, flags), t, q),
{
    let u = protected(t, p, flags);
    let size = t[p].size;
    assert forall|a: int, b: int|
        #![trigger u.dom().contains(a), u.dom().contains(b)]
        #![trigger same_block(a, b, u[a].size)]
        u.dom().contains(a) && same_block(a, b, u[a].size) implies {
        &&& u.dom().contains(b)
        &&& u[b].size == u[a].size
        &&& u[b].flags == u[a].flags
        &&& u[b].paddr - u[a].paddr == (b - a) * PAGE_SIZE_4K
    } by {
        assert(t.dom().contains(a) && same_block(a, b, t[a].size));
        if same_block(p, a, size) {
            assert(t[a].size == size);
            assert(same_block(p, b, size));
        } else if same_block(p, b, size) {
            assert(t[b].size == size);
        }
    }
}

/// How a frame is used after a page was placed: the frame that was there loses a
/// use, the one that is there now gets one.
pub proof fn lemma_placed_uses(
    t: Map<int, PageEntry>,
    range: VirtAddrRange,
    p: int,
    paddr: usize,
    size: PageSize,
    flags: MappingFlags,
    f: usize,
)
    requires
        leads(p, size),
        within(range, p),
        t.dom().contains(p) || forall|q: int|
            same_block(p, q, size) ==> !#[trigger] t.dom().contains(q),
    ensures
        uses(placed(t, p, paddr as int, size, flags), range, size, f) == uses(t, range, size, f) - (
        if t.dom().contains(p) && t[p].paddr == f {
            1int
        } else {
            0
        }) + if f == paddr {
            1int
        } else {
            0
        },
{
    let u = placed(t, p, paddr as int, size, flags);
    let without = t.remove(p);
    assert(same_block(p, p, size));
    if t.dom().contains(p) && t[p].paddr == f {
        assert(users(without, range, size, f) =~= users(t, range, size, f).remove(p));
        lemma_user_gone(t, without, range, size, f, p);
    } else {
        assert(users(without, range, size, f) =~= users(t, range, size, f));
    }
    assert forall|q: int| #[trigger] users(u, range, size, f).contains(q) == (users(
        without,
        range,
        size,
        f,
    ).contains(q) || (q == p && f == paddr)) by {
        if same_block(p, q, size) && leads(q, size) {
            lemma_leader(p, q, size);
        }
    }
    if f == paddr {
        assert(users(u, range, size, f) =~= users(without, range, size, f).insert(p));
        lemma_user_come(without, u, range, size, f, p);
    } else {
        assert(users(u, range, size, f) =~= users(without, range, size, f));
    }
}

} // verus!
