//! What the operations on cached files do to a file and to memory.
//!
//! The laws of the page cache are stated of a world in which requests are
//! answered without failure.

use vstd::prelude::*;
use crate::addr::PAGE_SIZE_4K;
use crate::effect::{Effect, Reply, Request};
use crate::fs::cache::{pages_ok, CacheView};
use crate::fs::chunks::{apart, step};
use crate::fs::page::{PageCache, PageOperation};

verus! {

/// The world around a cached file.
pub struct World {
    /// What the file itself holds.
    pub file: Seq<u8>,
    /// What memory holds.
    pub mem: Map<int, u8>,
    /// The addresses whose memory belongs to nobody.
    pub free: Set<int>,
    /// What the writer has left to give.
    pub input: Seq<u8>,
    /// What the reader was given.
    pub output: Seq<u8>,
}

/// Memory after bytes were stored at an address.
pub open spec fn stored(mem: Map<int, u8>, at: int, bytes: Seq<u8>) -> Map<int, u8> {
    Map::new(
        |a: int| true,
        |a: int|
            if at <= a < at + bytes.len() {
                bytes[a - at]
            } else {
                mem[a]
            },
    )
}

/// The bytes at an address.
pub open spec fn loaded(mem: Map<int, u8>, at: int, len: nat) -> Seq<u8> {
    Seq::new(len, |i: int| mem[at + i])
}

/// A number of zeros.
pub open spec fn zeros(len: nat) -> Seq<u8> {
    Seq::new(len, |i: int| 0u8)
}

/// A file after its length was set. It grows by zeros.
pub open spec fn resized(file: Seq<u8>, len: nat) -> Seq<u8> {
    Seq::new(
        len,
        |i: int|
            if i < file.len() {
                file[i]
            } else {
                0u8
            },
    )
}

/// A file after bytes were written at an offset.
pub open spec fn overwritten(file: Seq<u8>, offset: nat, bytes: Seq<u8>) -> Seq<u8> {
    let len = if offset + bytes.len() > file.len() {
        offset + bytes.len()
    } else {
        file.len()
    };
    Seq::new(
        len,
        |i: int|
            if offset <= i < offset + bytes.len() {
                bytes[i - offset]
            } else if i < file.len() {
                file[i]
            } else {
                0u8
            },
    )
}

/// The number of bytes of a file that a read of `len` bytes at `offset` gives.
pub open spec fn available(file: Seq<u8>, offset: nat, len: nat) -> nat {
    if offset >= file.len() {
        0
    } else if file.len() - offset < len {
        (file.len() - offset) as nat
    } else {
        len
    }
}

/// The addresses from `at` on.
pub open spec fn area(at: int, len: int) -> Set<int> {
    Set::new(|a: int| at <= a < at + len)
}

impl World {
    /// The world after one effect.
    pub open spec fn performed(self, effect: Effect) -> World {
        match effect {
            Effect::FreePage(page) => World {
                free: self.free.union(area(page.paddr as int, page.size as int)),
                ..self
            },
            Effect::FreeFrame { paddr, size } => World {
                free: self.free.union(area(paddr as int, size.bytes() as int)),
                ..self
            },
            Effect::Copy { src, dst, len } => World {
                mem: stored(self.mem, dst as int, loaded(self.mem, src as int, len as nat)),
                ..self
            },
            Effect::Zero { paddr, len } => World {
                mem: stored(self.mem, paddr as int, zeros(len as nat)),
                ..self
            },
            _ => self,
        }
    }

    /// The world after effects, one after the other.
    pub open spec fn all_performed(self, effects: Seq<Effect>) -> World
        decreases effects.len(),
    {
        if effects.len() == 0 {
            self
        } else {
            self.all_performed(effects.drop_last()).performed(effects.last())
        }
    }

    /// Whether the world can answer a request with a reply, and is `after` then.
    /// A read takes what the file has; what is behind its end leaves memory as it
    /// was. A page is allocated from memory that belongs to nobody, and holds
    /// what that held.
    pub open spec fn answers(self, request: Request, reply: Reply, after: World) -> bool {
        match request {
            Request::FileLen => {
                &&& self.file.len() <= u64::MAX
                &&& reply == Reply::Len(self.file.len() as u64)
                &&& after == self
            },
            Request::FileSetLen(len) => {
                &&& reply is Done
                &&& after == (World { file: resized(self.file, len as nat), ..self })
            },
            Request::FileRead { paddr, len, offset } => {
                let n = available(self.file, offset as nat, len as nat);
                &&& reply is Done
                &&& after == (World {
                    mem: stored(
                        self.mem,
                        paddr as int,
                        Seq::new(n, |i: int| self.file[offset + i]),
                    ),
                    ..self
                })
            },
            Request::FileWrite { paddr, len, offset } => {
                &&& reply is Done
                &&& after == (World {
                    file: overwritten(
                        self.file,
                        offset as nat,
                        loaded(self.mem, paddr as int, len as nat),
                    ),
                    ..self
                })
            },
            Request::FileSync { .. } => reply is Done && after == self,
            Request::AllocPage { bytes } => match reply {
                Reply::Addr(paddr) => {
                    &&& paddr + bytes <= usize::MAX
                    &&& area(paddr as int, bytes as int).subset_of(self.free)
                    &&& after == (World {
                        free: self.free.difference(area(paddr as int, bytes as int)),
                        ..self
                    })
                },
                _ => false,
            },
            Request::CopyOut { paddr, len } => {
                &&& reply is Done
                &&& after == (World {
                    output: self.output + loaded(self.mem, paddr as int, len as nat),
                    ..self
                })
            },
            Request::CopyIn { paddr, len } => {
                &&& reply is Done
                &&& len <= self.input.len()
                &&& after == (World {
                    mem: stored(self.mem, paddr as int, self.input.take(len as int)),
                    input: self.input.skip(len as int),
                    ..self
                })
            },
            Request::Relax => reply is Done && after == self,
            _ => false,
        }
    }
}

/// Effects that only tell listeners change nothing.
pub open spec fn only_notices(effects: Seq<Effect>) -> bool {
    forall|i: int| 0 <= i < effects.len() ==> (#[trigger] effects[i]) is Notify
}

pub proof fn lemma_only_notices(w: World, effects: Seq<Effect>)
    requires
        only_notices(effects),
    ensures
        w.all_performed(effects) == w,
    decreases effects.len(),
{
    if effects.len() > 0 {
        assert forall|i: int| 0 <= i < effects.drop_last().len() implies (
        #[trigger] effects.drop_last()[i]) is Notify by {
            assert(effects.drop_last()[i] == effects[i]);
        }
        lemma_only_notices(w, effects.drop_last());
        assert(effects[effects.len() - 1] is Notify);
    }
}

pub proof fn lemma_notices(w: World, cache: CacheView, pn: u32, page: PageCache, op: PageOperation)
    ensures
        only_notices(cache.notices(pn, page, op)),
        w.all_performed(cache.notices(pn, page, op)) == w,
{
    lemma_only_notices(w, cache.notices(pn, page, op));
}

pub proof fn lemma_performed_concat(w: World, a: Seq<Effect>, b: Seq<Effect>)
    ensures
        w.all_performed(a + b) == w.all_performed(a).all_performed(b),
    decreases b.len(),
{
    if b.len() == 0 {
        assert(a + b =~= a);
    } else {
        assert((a + b).drop_last() =~= a + b.drop_last());
        lemma_performed_concat(w, a, b.drop_last());
    }
}

pub proof fn lemma_performed_one(w: World, effect: Effect)
    ensures
        w.all_performed(seq![effect]) == w.performed(effect),
{
    assert(seq![effect].drop_last() =~= Seq::empty());
    assert(w.all_performed(Seq::empty()) == w);
}

/// Whether the page that is cached for `pn` has the byte `b` of the file in it.
pub open spec fn holds(m: Map<u32, PageCache>, pn: u32, b: int) -> bool {
    m.dom().contains(pn) && pn * PAGE_SIZE_4K <= b < pn * PAGE_SIZE_4K + m[pn].size
}

/// Whether no cached page has the byte `b` of the file in it.
pub open spec fn uncached(m: Map<u32, PageCache>, b: int) -> bool {
    forall|pn: u32| !#[trigger] holds(m, pn, b)
}

/// The byte `b` of the file as a page that holds it has it.
pub open spec fn held(w: World, m: Map<u32, PageCache>, pn: u32, b: int) -> u8 {
    w.mem[m[pn].paddr + (b - pn * PAGE_SIZE_4K)]
}

/// The byte `b` of the file where no page holds it. A file without a device
/// starts with zeros.
pub open spec fn backing(w: World, in_memory: bool, b: int) -> u8 {
    if in_memory {
        0u8
    } else {
        w.file[b]
    }
}

/// Whether two pages share no memory.
pub open spec fn disjoint(a: PageCache, b: PageCache) -> bool {
    a.paddr + a.size <= b.paddr || b.paddr + b.size <= a.paddr
}

/// Whether no address of a page is free.
pub open spec fn owned(w: World, page: PageCache) -> bool {
    forall|a: int| page.paddr <= a < page.paddr + page.size ==> !#[trigger] w.free.contains(a)
}

/// Whether the cached pages lie beside each other: in the file, and in memory.
pub open spec fn laid_out(w: World, m: Map<u32, PageCache>) -> bool {
    &&& pages_ok(m)
    &&& apart(m)
    &&& forall|p: u32, q: u32|
        #![trigger m.dom().contains(p), m.dom().contains(q)]
        m.dom().contains(p) && m.dom().contains(q) && p != q ==> disjoint(m[p], m[q])
    &&& forall|p: u32| #[trigger] m.dom().contains(p) ==> owned(w, m[p])
}

/// Whether the cached pages and the file together have the bytes of the file
/// that `want` gives: a page that holds one has it, the file has it where no page
/// does, and a clean page of a file with a device is in step with the file.
pub open spec fn has_bytes(w: World, in_memory: bool, m: Map<u32, PageCache>, want: Map<int, u8>) -> bool {
    &&& forall|b: int| #[trigger] want.dom().contains(b) ==> 0 <= b < w.file.len()
    &&& forall|b: int, pn: u32|
        #![trigger want.dom().contains(b), holds(m, pn, b)]
        want.dom().contains(b) && holds(m, pn, b) ==> held(w, m, pn, b) == want[b] && (in_memory
            || m[pn].dirty || w.file[b] == want[b])
    &&& forall|b: int|
        #[trigger] want.dom().contains(b) && uncached(m, b) ==> backing(w, in_memory, b) == want[b]
}

/// Whether the cache is in order and has the bytes that `want` gives.
pub open spec fn coherent(w: World, in_memory: bool, m: Map<u32, PageCache>, want: Map<int, u8>) -> bool {
    laid_out(w, m) && has_bytes(w, in_memory, m, want)
}

/// No two cached pages hold the same byte of the file.
pub proof fn lemma_one_holder(m: Map<u32, PageCache>, p: u32, q: u32, b: int)
    requires
        apart(m),
        pages_ok(m),
        holds(m, p, b),
        holds(m, q, b),
    ensures
        p == q,
{
    assert(m.dom().contains(p) && m.dom().contains(q));
    assert(m[p].wf() && m[q].wf());
    if p < q {
        assert(p + step(m, p as int) <= q);
    } else if q < p {
        assert(q + step(m, q as int) <= p);
    }
}

/// A page that is taken out leaves the others in order.
pub proof fn lemma_taken_out(w: World, m: Map<u32, PageCache>, pn: u32)
    requires
        laid_out(w, m),
    ensures
        laid_out(w, m.remove(pn)),
{
    let n = m.remove(pn);
    assert forall|p: u32, q: u32|
        #![trigger n.dom().contains(p), n.dom().contains(q)]
        n.dom().contains(p) && n.dom().contains(q) implies (p < q ==> p + step(n, p as int) <= q) && (p
        != q ==> disjoint(n[p], n[q])) by {
        assert(m.dom().contains(p) && m.dom().contains(q));
        assert(n[p] == m[p] && n[q] == m[q]);
        assert(step(n, p as int) == step(m, p as int));
    }
    assert forall|p: u32| #[trigger] n.dom().contains(p) implies owned(w, n[p]) && n[p].wf() by {
        assert(m.dom().contains(p));
    }
}

/// A page that is put where none is leaves the cache in order, if it lies beside
/// the others.
pub proof fn lemma_put_in(w: World, m: Map<u32, PageCache>, pn: u32, page: PageCache)
    requires
        laid_out(w, m),
        page.wf(),
        owned(w, page),
        forall|p: u32| #[trigger] m.dom().contains(p) ==> p != pn && disjoint(m[p], page) && (p < pn
            ==> p + step(m, p as int) <= pn) && (pn < p ==> pn + page.size / PAGE_SIZE_4K <= p),
    ensures
        laid_out(w, m.insert(pn, page)),
{
    let n = m.insert(pn, page);
    assert forall|p: u32, q: u32|
        #![trigger n.dom().contains(p), n.dom().contains(q)]
        n.dom().contains(p) && n.dom().contains(q) implies (p < q ==> p + step(n, p as int) <= q) && (p
        != q ==> disjoint(n[p], n[q])) by {
        if p != pn {
            assert(m.dom().contains(p));
            assert(n[p] == m[p]);
            assert(step(n, p as int) == step(m, p as int));
        }
        if q != pn {
            assert(m.dom().contains(q));
            assert(n[q] == m[q]);
        }
        if p == pn && q != pn {
            assert(step(n, p as int) == page.size / PAGE_SIZE_4K);
        }
    }
    assert forall|p: u32| #[trigger] n.dom().contains(p) implies owned(w, n[p]) && n[p].wf() by {
        if p != pn {
            assert(m.dom().contains(p));
        }
    }
}

} // verus!
