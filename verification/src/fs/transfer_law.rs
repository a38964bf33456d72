//! A read gives back what was written.

use vstd::prelude::*;
use crate::addr::PAGE_SIZE_4K;
use crate::effect::{Effect, Reply, Request, Turn};
use crate::fs::cache::{pages_ok, CacheView};
use crate::fs::cached_file::CachedFile;
use crate::fs::chunks::{
    apart, law_located_chunk_has_the_byte, offset_from, offset_order, step,
};
use crate::fs::fetch::{freed, FetchStep, PageFetch};
use crate::fs::fetch_law::{
    fetch_steps, fetch_waits, left_beside, lemma_fetch_begins, lemma_fetch_goes_on,
    lemma_pages_ok_insert, on_boundary, same_sides,
};
use crate::fs::page::PageCache;
use crate::fs::recency::{
    distinct, lemma_lookup_map, lemma_placed, lemma_touched, page_map, touched,
};
use crate::fs::transfer::{marked, Transfer, TransferKind, TransferState, TransferStep};
use crate::fs::world::{
    backing, coherent, disjoint, held, holds, laid_out, lemma_one_holder, lemma_performed_concat,
    lemma_performed_one, loaded, owned, resized, stored, uncached, World,
};

verus! {

/// A transfer in the world: where it stands, and what it waits for or ended
/// with.
pub struct TransferRun {
    pub machine: Transfer,
    pub cache: CacheView,
    pub world: World,
    pub turn: Option<Turn<(usize, u64)>>,
}

/// The transfer after a reply from the world `world`.
#[verifier::opaque]
pub open spec fn resumed(a: TransferRun, reply: Reply, world: World) -> TransferRun {
    let s = a.machine.after(a.cache, reply);
    TransferRun {
        machine: s.next,
        cache: s.cache,
        world: world.all_performed(s.effects),
        turn: Some(s.turn),
    }
}

/// Whether a transfer can go from `a` to `b`: it starts, or its request is
/// answered.
pub open spec fn transfer_moves(a: TransferRun, b: TransferRun) -> bool {
    match a.turn {
        None => b == resumed(a, Reply::Start, a.world),
        Some(Turn::Ask(request)) => exists|reply: Reply, world: World| #[trigger]
            a.world.answers(request, reply, world) && a.machine.awaits(reply) && b == resumed(
                a,
                reply,
                world,
            ),
        Some(Turn::Finished(_)) => false,
    }
}

/// Whether a transfer goes through the given stages.
pub open spec fn transfer_runs(stages: Seq<TransferRun>) -> bool {
    &&& stages.len() > 0
    &&& forall|i: int|
        0 <= i < stages.len() - 1 ==> transfer_moves(#[trigger] stages[i], stages[i + 1])
}

/// The transfer at its start.
pub open spec fn starting(machine: Transfer, cache: CacheView, world: World) -> TransferRun {
    TransferRun { machine, cache, world, turn: None }
}

/// Whether a cache has room for a page for every number, if the file has no
/// device to let one go to.
pub open spec fn roomy(in_memory: bool, cache: CacheView) -> bool {
    in_memory ==> cache.cap > 0x1_0000_0000
}

/// The wanted bytes after others were written over them from `start` on.
pub open spec fn written(want: Map<int, u8>, start: int, data: Seq<u8>) -> Map<int, u8> {
    Map::new(
        |b: int| want.dom().contains(b) || start <= b < start + data.len(),
        |b: int|
            if start <= b < start + data.len() {
                data[b - start]
            } else {
                want[b]
            },
    )
}

/// There are no more cached pages than page numbers.
pub proof fn lemma_not_full(cache: CacheView)
    requires
        cache.wf(),
        cache.cap > 0x1_0000_0000,
    ensures
        !cache.full(),
{
    let keys = cache.pages.map_values(|e: (u32, PageCache)| e.0 as int);
    assert(keys.no_duplicates()) by {
        assert forall|i: int, j: int| 0 <= i < keys.len() && 0 <= j < keys.len() && i != j implies keys[i]
            != keys[j] by {
            if i < j {
                assert(cache.pages[i].0 != cache.pages[j].0);
            } else {
                assert(cache.pages[j].0 != cache.pages[i].0);
            }
        }
    }
    keys.unique_seq_to_set();
    let all = vstd::set_lib::set_int_range(0, 0x1_0000_0000);
    vstd::set_lib::lemma_int_range(0, 0x1_0000_0000);
    assert(keys.to_set().subset_of(all)) by {
        assert forall|x: int| keys.to_set().contains(x) implies all.contains(x) by {
            let i = choose|i: int| 0 <= i < keys.len() && keys[i] == x;
            assert(keys[i] == cache.pages[i].0 as int);
        }
    }
    vstd::set_lib::lemma_len_subset(keys.to_set(), all);
}

/// The walk for a byte changes the order of the pages alone.
pub proof fn lemma_offset_order(s: Seq<(u32, PageCache)>, m: Map<u32, PageCache>, at: int, offset: int)
    requires
        distinct(s),
        m == page_map(s),
        0 <= at,
    ensures
        distinct(offset_order(s, m, at, offset)),
        page_map(offset_order(s, m, at, offset)) == m,
        offset_order(s, m, at, offset).len() == s.len(),
    decreases offset - at * PAGE_SIZE_4K,
{
    lemma_touched(s, at as u32);
    if at * PAGE_SIZE_4K >= offset || (at + step(m, at)) * PAGE_SIZE_4K > offset {
    } else {
        lemma_offset_order(touched(s, at as u32), m, at + step(m, at), offset);
    }
}

/// The walk for a byte ends at a chunk that starts in no cached page.
pub proof fn lemma_walk_boundary(m: Map<u32, PageCache>, at: int, offset: int)
    requires
        apart(m),
        0 <= at,
        at * PAGE_SIZE_4K <= offset,
        offset <= u32::MAX * PAGE_SIZE_4K,
        on_boundary(m, at as u32),
    ensures
        on_boundary(m, offset_from(m, at, offset) as u32),
        at <= offset_from(m, at, offset),
        offset_from(m, at, offset) * PAGE_SIZE_4K <= offset,
    decreases offset - at * PAGE_SIZE_4K,
{
    if at * PAGE_SIZE_4K >= offset || (at + step(m, at)) * PAGE_SIZE_4K > offset {
    } else {
        let next = at + step(m, at);
        assert(on_boundary(m, next as u32)) by {
            assert forall|p: u32| #[trigger] m.dom().contains(p) && p < next implies p + step(
                m,
                p as int,
            ) <= next by {
                if p < at {
                    assert(p + step(m, p as int) <= at);
                } else if p > at {
                    if m.dom().contains(at as u32) {
                        assert(at + step(m, at) <= p);
                    }
                }
            }
        }
        lemma_walk_boundary(m, next, offset);
    }
}

/// Behind a cached page starts no cached page's inside.
pub proof fn lemma_next_boundary(m: Map<u32, PageCache>, pn: u32)
    requires
        apart(m),
        pages_ok(m),
        m.dom().contains(pn),
        on_boundary(m, pn),
        pn + m[pn].size / PAGE_SIZE_4K <= u32::MAX,
    ensures
        on_boundary(m, (pn + m[pn].size / PAGE_SIZE_4K) as u32),
{
    let next = (pn + m[pn].size / PAGE_SIZE_4K) as u32;
    assert(m[pn].wf());
    assert(step(m, pn as int) == m[pn].size / PAGE_SIZE_4K);
    assert forall|p: u32| #[trigger] m.dom().contains(p) && p < next implies p + step(m, p as int)
        <= next by {
        if p < pn {
            assert(p + step(m, p as int) <= pn);
        } else if p > pn {
            assert(pn + step(m, pn as int) <= p);
        }
    }
}

/// Memory that is given back belonged to no cached page.
pub proof fn lemma_freed(
    w: World,
    in_memory: bool,
    m: Map<u32, PageCache>,
    want: Map<int, u8>,
    evicted: Option<(u32, PageCache)>,
)
    requires
        coherent(w, in_memory, m, want),
        left_beside(w, m, evicted),
    ensures
        coherent(w.all_performed(freed(evicted)), in_memory, m, want),
        same_sides(w, w.all_performed(freed(evicted))),
{
    let after = w.all_performed(freed(evicted));
    match evicted {
        None => {
            assert(after == w);
        },
        Some(entry) => {
            lemma_performed_one(w, Effect::FreePage(entry.1));
            assert forall|p: u32| #[trigger] m.dom().contains(p) implies owned(after, m[p]) by {
                assert(disjoint(m[p], entry.1));
                assert(owned(w, m[p]));
                assert forall|a: int| m[p].paddr <= a < m[p].paddr + m[p].size implies !#[trigger] after.free.contains(
                    a,
                ) by {
                    assert(!w.free.contains(a));
                }
            }
            assert forall|b: int, p: u32|
                #![trigger want.dom().contains(b), holds(m, p, b)]
                want.dom().contains(b) && holds(m, p, b) implies held(after, m, p, b) == want[b] && (
            in_memory || m[p].dirty || after.file[b] == want[b]) by {
                assert(held(w, m, p, b) == want[b]);
            }
            assert forall|b: int| #[trigger] want.dom().contains(b) && uncached(m, b) implies backing(
                after,
                in_memory,
                b,
            ) == want[b] by {
                assert(backing(w, in_memory, b) == want[b]);
            }
        },
    }
}

/// What holds of a transfer that waits for the answer to `request`: it fetches a
/// page, or moves bytes from or to one.
#[verifier::opaque]
pub open spec fn transfer_waits(
    t: Transfer,
    cache: CacheView,
    w: World,
    want: Map<int, u8>,
    request: Request,
) -> bool {
    let m = page_map(cache.pages);
    &&& t.wf()
    &&& match t.state {
        TransferState::Fetching => {
            &&& t.fetch.in_memory == t.file.in_memory
            &&& fetch_waits(t.fetch, cache, w, want, request)
        },
        TransferState::Moving => {
            &&& cache.wf()
            &&& request == t.moving(t.page)
            &&& coherent(w, t.file.in_memory, m, want)
            &&& on_boundary(m, t.pn)
            &&& m.dom().contains(t.pn)
            &&& m[t.pn] == t.page
        },
        _ => false,
    }
}

/// What holds of a waiting transfer.
proof fn lemma_waiting(t: Transfer, cache: CacheView, w: World, want: Map<int, u8>, request: Request)
    requires
        transfer_waits(t, cache, w, want, request),
    ensures
        t.wf(),
        t.state is Fetching || t.state is Moving,
        t.state is Fetching ==> t.fetch.in_memory == t.file.in_memory && fetch_waits(
            t.fetch,
            cache,
            w,
            want,
            request,
        ),
        t.state is Moving ==> {
            &&& cache.wf()
            &&& request == t.moving(t.page)
            &&& coherent(w, t.file.in_memory, page_map(cache.pages), want)
            &&& on_boundary(page_map(cache.pages), t.pn)
            &&& page_map(cache.pages).dom().contains(t.pn)
            &&& page_map(cache.pages)[t.pn] == t.page
        },
{
    reveal(transfer_waits);
}

/// What stays the same of a transfer between two chunks.
pub open spec fn same_transfer(a: Transfer, b: Transfer) -> bool {
    &&& a.file == b.file
    &&& a.kind == b.kind
    &&& a.start == b.start
    &&& a.end == b.end
    &&& a.remaining == b.remaining
    &&& a.moved == b.moved
}

/// What holds after a transfer turned to a chunk.
pub open spec fn transfer_entered(t: Transfer, s: TransferStep, w: World, want: Map<int, u8>) -> bool {
    &&& same_transfer(t, s.next)
    &&& match s.turn {
        Turn::Ask(request) => transfer_waits(s.next, s.cache, w, want, request),
        Turn::Finished(Ok((n, end))) => {
            &&& n == t.moved
            &&& end == t.start + n
            &&& t.chunk_start >= t.end
            &&& s.cache.wf()
            &&& coherent(w, t.file.in_memory, page_map(s.cache.pages), want)
        },
        Turn::Finished(Err(_)) => false,
    }
}

/// A step of its fetch brings a transfer on.
proof fn lemma_fetching(t: Transfer, f: PageFetch, fs: FetchStep, w: World, want: Map<int, u8>)
    requires
        t.in_range(),
        t.chunk_start < t.end,
        t.chunk_start == t.pn * PAGE_SIZE_4K,
        t.moved == t.clip(t.chunk_start as int) - t.start,
        f.pn == t.pn,
        f.in_memory == t.file.in_memory,
        fetch_steps(f, fs, w.all_performed(fs.effects), want),
    ensures
        ({
            let s = t.fetching(fs);
            let after = w.all_performed(s.effects);
            &&& transfer_entered(t, s, after, want)
            &&& same_sides(w.all_performed(fs.effects), after)
            &&& s.cache == fs.cache
        }),
{
    reveal(transfer_waits);
    let s = t.fetching(fs);
    if let Turn::Finished(Ok(fetched)) = fs.turn {
        let mid = w.all_performed(fs.effects);
        lemma_performed_concat(w, fs.effects, freed(fetched.evicted));
        lemma_freed(mid, t.file.in_memory, page_map(fs.cache.pages), want, fetched.evicted);
        assert(page_map(fs.cache.pages).dom().contains(t.pn));
        assert(fetched.page.wf());
    }
}

/// A transfer that turns to a chunk keeps the wanted bytes.
proof fn lemma_entering(t: Transfer, cache: CacheView, w: World, want: Map<int, u8>)
    requires
        t.in_range(),
        t.chunk_start < t.end ==> t.chunk_start == t.pn * PAGE_SIZE_4K && on_boundary(
            page_map(cache.pages),
            t.pn,
        ),
        t.moved == t.clip(t.chunk_start as int) - t.start,
        cache.wf(),
        roomy(t.file.in_memory, cache),
        coherent(w, t.file.in_memory, page_map(cache.pages), want),
    ensures
        ({
            let s = t.entering(cache);
            let after = w.all_performed(s.effects);
            &&& transfer_entered(t, s, after, want)
            &&& same_sides(w, after)
            &&& s.cache.cap == cache.cap
        }),
{
    if t.chunk_start < t.end {
        let f = t.file.fetch_of(t.pn, PAGE_SIZE_4K);
        if t.file.in_memory {
            lemma_not_full(cache);
        }
        lemma_fetch_begins(f, cache, w, want);
        lemma_fetch_cap(f, cache, Reply::Start);
        lemma_fetching(t, f, f.after(cache, Reply::Start), w, want);
    }
}

/// A transfer that turns to its first chunk keeps the wanted bytes.
proof fn lemma_locating(t: Transfer, cache: CacheView, w: World, want: Map<int, u8>)
    requires
        t.in_range(),
        t.moved == 0,
        cache.wf(),
        roomy(t.file.in_memory, cache),
        coherent(w, t.file.in_memory, page_map(cache.pages), want),
    ensures
        ({
            let s = t.locating(cache);
            let after = w.all_performed(s.effects);
            &&& match s.turn {
                Turn::Ask(request) => same_transfer(t, s.next) && transfer_waits(
                    s.next,
                    s.cache,
                    after,
                    want,
                    request,
                ),
                Turn::Finished(Ok((n, end))) => {
                    &&& same_transfer(t, s.next)
                    &&& n == 0
                    &&& end == t.start
                    &&& t.start == t.end
                    &&& s.cache.wf()
                    &&& coherent(after, t.file.in_memory, page_map(s.cache.pages), want)
                },
                Turn::Finished(Err(_)) => false,
            }
            &&& same_sides(w, after)
            &&& s.cache.cap == cache.cap
        }),
{
    let m = page_map(cache.pages);
    let pn = offset_from(m, 0, t.start as int);
    law_located_chunk_has_the_byte(m, t.start as int);
    assert(on_boundary(m, 0u32));
    lemma_walk_boundary(m, 0, t.start as int);
    lemma_offset_order(cache.pages, m, 0, t.start as int);
    let c = cache.with_pages(offset_order(cache.pages, m, 0, t.start as int));
    assert(c.wf());
    let u = Transfer { pn: pn as u32, chunk_start: (pn * PAGE_SIZE_4K) as u64, ..t };
    lemma_entering(u, c, w, want);
}

/// What is left of the transfer's bytes goes on behind a chunk that needs no
/// moving.
proof fn lemma_relaxed(t: Transfer, cache: CacheView, w: World, want: Map<int, u8>, reply: Reply, answered: World)
    requires
        t.state is Moving,
        transfer_waits(t, cache, w, want, t.moving(t.page)),
        roomy(t.file.in_memory, cache),
        t.part(t.page).1 == 0,
        w.answers(t.moving(t.page), reply, answered),
    ensures
        ({
            let s = t.moved_on(cache);
            let after = answered.all_performed(s.effects);
            &&& transfer_moved_on(t, s, after, want)
            &&& same_sides(w, after)
            &&& s.cache.cap == cache.cap
        }),
{
    lemma_waiting(t, cache, w, want, t.moving(t.page));
    let m = page_map(cache.pages);
    let u = Transfer {
        chunk_start: (t.chunk_start + t.page.size) as u64,
        pn: (t.pn + t.page.size / PAGE_SIZE_4K) as u32,
        ..t
    };
    assert(answered == w);
    if u.chunk_start < u.end {
        lemma_next_boundary(m, t.pn);
    }
    lemma_entering(u, cache, answered, want);
}

/// What holds after a transfer moved the part of its range that is in a page.
pub open spec fn transfer_moved_on(t: Transfer, s: TransferStep, w: World, want: Map<int, u8>) -> bool {
    let n = t.moved + t.part(t.page).1;
    &&& s.next.file == t.file
    &&& s.next.kind == t.kind
    &&& s.next.start == t.start
    &&& s.next.end == t.end
    &&& s.next.remaining == t.remaining
    &&& s.next.moved == n
    &&& match s.turn {
        Turn::Ask(request) => transfer_waits(s.next, s.cache, w, want, request),
        Turn::Finished(Ok((k, end))) => {
            &&& k == n
            &&& end == t.start + n
            &&& n == t.end - t.start
            &&& s.cache.wf()
            &&& coherent(w, t.file.in_memory, page_map(s.cache.pages), want)
        },
        Turn::Finished(Err(_)) => false,
    }
}

/// The bytes that are handed out of a page are those of the file.
proof fn lemma_handed_out(
    t: Transfer,
    cache: CacheView,
    w: World,
    want: Map<int, u8>,
    reply: Reply,
    answered: World,
)
    requires
        t.state is Moving,
        t.kind is Read,
        t.part(t.page).1 > 0,
        transfer_waits(t, cache, w, want, t.moving(t.page)),
        roomy(t.file.in_memory, cache),
        w.answers(t.moving(t.page), reply, answered),
    ensures
        ({
            let s = t.moved_on(cache);
            let after = answered.all_performed(s.effects);
            let n = t.part(t.page).1;
            &&& transfer_moved_on(t, s, after, want)
            &&& after.file.len() == w.file.len()
            &&& after.input == w.input
            &&& after.output.len() == w.output.len() + n
            &&& after.output.take(w.output.len() as int) == w.output
            &&& forall|i: int|
                0 <= i < n && want.dom().contains(t.start + t.moved + i)
                    ==> #[trigger] after.output[w.output.len() + i] == want[t.start + t.moved + i]
            &&& s.cache.cap == cache.cap
        }),
{
    lemma_waiting(t, cache, w, want, t.moving(t.page));
    let m = page_map(cache.pages);
    let (off, n) = t.part(t.page);
    let u = Transfer {
        moved: (t.moved + n) as usize,
        chunk_start: (t.chunk_start + t.page.size) as u64,
        pn: (t.pn + t.page.size / PAGE_SIZE_4K) as u32,
        ..t
    };
    assert(t.page.wf());
    assert(coherent(answered, t.file.in_memory, m, want)) by {
        lemma_same_memory(w, answered, t.file.in_memory, m, want);
    }
    if u.chunk_start < u.end {
        lemma_next_boundary(m, t.pn);
    }
    lemma_entering(u, cache, answered, want);
    let s = t.moved_on(cache);
    let after = answered.all_performed(s.effects);
    let bytes = loaded(w.mem, t.page.paddr + off, n as nat);
    assert(after.output == w.output + bytes);
    assert(after.output.take(w.output.len() as int) =~= w.output);
    assert forall|i: int| 0 <= i < n && want.dom().contains(t.start + t.moved + i) implies #[trigger] after.output[w.output.len()
        + i] == want[t.start + t.moved + i] by {
        let b = t.start + t.moved + i;
        assert(b == t.chunk_start + off + i);
        assert(holds(m, t.pn, b));
        assert(held(w, m, t.pn, b) == want[b]);
        assert(after.output[w.output.len() + i] == bytes[i]);
    }
}

/// A world with the same file, memory and free memory has the same bytes.
proof fn lemma_same_memory(w: World, after: World, in_memory: bool, m: Map<u32, PageCache>, want: Map<int, u8>)
    requires
        coherent(w, in_memory, m, want),
        after.file == w.file,
        after.mem == w.mem,
        after.free == w.free,
    ensures
        coherent(after, in_memory, m, want),
{
    assert forall|p: u32| #[trigger] m.dom().contains(p) implies owned(after, m[p]) by {
        assert(owned(w, m[p]));
    }
    assert forall|b: int, p: u32|
        #![trigger want.dom().contains(b), holds(m, p, b)]
        want.dom().contains(b) && holds(m, p, b) implies held(after, m, p, b) == want[b] && (in_memory
        || m[p].dirty || after.file[b] == want[b]) by {
        assert(held(w, m, p, b) == want[b]);
    }
    assert forall|b: int| #[trigger] want.dom().contains(b) && uncached(m, b) implies backing(
        after,
        in_memory,
        b,
    ) == want[b] by {
        assert(backing(w, in_memory, b) == want[b]);
    }
}

/// Bytes that are stored in a page that is marked as written, or whose file has
/// no device, are bytes of the file.
proof fn lemma_stored(
    w: World,
    after: World,
    in_memory: bool,
    m: Map<u32, PageCache>,
    n: Map<u32, PageCache>,
    want: Map<int, u8>,
    pn: u32,
    off: int,
    data: Seq<u8>,
)
    requires
        coherent(w, in_memory, m, want),
        m.dom().contains(pn),
        0 <= off,
        off + data.len() <= m[pn].size,
        pn * PAGE_SIZE_4K + off + data.len() <= w.file.len(),
        after.file == w.file,
        after.free == w.free,
        after.mem == stored(w.mem, m[pn].paddr + off, data),
        n == (if in_memory {
            m
        } else {
            m.insert(pn, PageCache { dirty: true, ..m[pn] })
        }),
    ensures
        coherent(after, in_memory, n, written(want, pn * PAGE_SIZE_4K + off, data)),
{
    let start = pn * PAGE_SIZE_4K + off;
    let all = written(want, start, data);
    let page = m[pn];
    assert(page.wf());
    assert forall|p: u32| #[trigger] n.dom().contains(p) implies m.dom().contains(p) && n[p].paddr
        == m[p].paddr && n[p].size == m[p].size by {}
    assert forall|p: u32| #[trigger] n.dom().contains(p) implies owned(after, n[p]) && n[p].wf() by {
        assert(m.dom().contains(p));
        assert(owned(w, m[p]));
        assert(m[p].wf());
    }
    assert forall|p: u32, q: u32|
        #![trigger n.dom().contains(p), n.dom().contains(q)]
        n.dom().contains(p) && n.dom().contains(q) implies (p < q ==> p + step(n, p as int) <= q) && (p
        != q ==> disjoint(n[p], n[q])) by {
        assert(m.dom().contains(p) && m.dom().contains(q));
        assert(step(n, p as int) == step(m, p as int));
    }
    assert(laid_out(after, n));
    assert forall|b: int, p: u32|
        #![trigger all.dom().contains(b), holds(n, p, b)]
        all.dom().contains(b) && holds(n, p, b) implies held(after, n, p, b) == all[b] && (in_memory
        || n[p].dirty || after.file[b] == all[b]) by {
        assert(holds(m, p, b));
        let a = m[p].paddr + (b - p * PAGE_SIZE_4K);
        if p == pn {
            if start <= b < start + data.len() {
                assert(after.mem[a] == data[b - start]);
            } else {
                assert(want.dom().contains(b));
                assert(held(w, m, p, b) == want[b]);
            }
        } else {
            assert(m.dom().contains(p) && m.dom().contains(pn));
            assert(disjoint(m[p], page));
            if start <= b < start + data.len() {
                assert(holds(m, pn, b));
                lemma_one_holder(m, p, pn, b);
            }
            assert(want.dom().contains(b));
            assert(held(w, m, p, b) == want[b]);
        }
    }
    assert forall|b: int| #[trigger] all.dom().contains(b) && uncached(n, b) implies backing(
        after,
        in_memory,
        b,
    ) == all[b] by {
        assert(!holds(n, pn, b));
        assert forall|p: u32| !#[trigger] holds(m, p, b) by {
            assert(!holds(n, p, b));
        }
        assert(uncached(m, b));
        assert(want.dom().contains(b));
    }
}

/// The bytes that are taken into a page are bytes of the file from then on.
proof fn lemma_taken_in(
    t: Transfer,
    cache: CacheView,
    w: World,
    want: Map<int, u8>,
    reply: Reply,
    answered: World,
)
    requires
        t.state is Moving,
        !(t.kind is Read),
        t.part(t.page).1 > 0,
        t.end <= w.file.len(),
        transfer_waits(t, cache, w, want, t.moving(t.page)),
        roomy(t.file.in_memory, cache),
        w.answers(t.moving(t.page), reply, answered),
    ensures
        ({
            let s = t.moved_on(cache);
            let after = answered.all_performed(s.effects);
            let n = t.part(t.page).1;
            &&& n <= w.input.len()
            &&& transfer_moved_on(
                t,
                s,
                after,
                written(want, t.start + t.moved, w.input.take(n)),
            )
            &&& after.file.len() == w.file.len()
            &&& after.output == w.output
            &&& after.input == w.input.skip(n)
            &&& s.cache.cap == cache.cap
        }),
{
    lemma_waiting(t, cache, w, want, t.moving(t.page));
    let m = page_map(cache.pages);
    let (off, n) = t.part(t.page);
    let data = w.input.take(n);
    let u = Transfer {
        moved: (t.moved + n) as usize,
        chunk_start: (t.chunk_start + t.page.size) as u64,
        pn: (t.pn + t.page.size / PAGE_SIZE_4K) as u32,
        ..t
    };
    assert(t.page.wf());
    let c = if t.file.in_memory {
        cache
    } else {
        cache.with_pages(marked(cache.pages, t.pn))
    };
    let dirty = PageCache { dirty: true, ..t.page };
    lemma_lookup_map(cache.pages, t.pn);
    lemma_placed(cache.pages, t.pn, dirty);
    let m2 = page_map(c.pages);
    assert(m2 == (if t.file.in_memory {
        m
    } else {
        m.insert(t.pn, dirty)
    }));
    assert(c.wf()) by {
        lemma_pages_ok_insert(m, t.pn, dirty);
    }
    assert(t.start + t.moved == t.pn * PAGE_SIZE_4K + off);
    lemma_stored(w, answered, t.file.in_memory, m, m2, want, t.pn, off, data);
    let all = written(want, t.start + t.moved, data);
    assert(on_boundary(m2, t.pn)) by {
        assert forall|p: u32| #[trigger] m2.dom().contains(p) && p < t.pn implies p + step(
            m2,
            p as int,
        ) <= t.pn by {
            assert(m.dom().contains(p));
            assert(step(m2, p as int) == step(m, p as int));
        }
    }
    if u.chunk_start < u.end {
        lemma_next_boundary(m2, t.pn);
    }
    lemma_entering(u, c, answered, all);
}

/// What holds at every stage of a read of the bytes that `want` gives, which
/// started in the world `w`.
pub open spec fn read_invariant(
    r: TransferRun,
    file: CachedFile,
    offset: u64,
    remaining: usize,
    w: World,
    want: Map<int, u8>,
) -> bool {
    let t = r.machine;
    let m = page_map(r.cache.pages);
    &&& t.file == file
    &&& t.kind is Read
    &&& t.start == offset
    &&& t.remaining == remaining
    &&& roomy(file.in_memory, r.cache)
    &&& r.world.file.len() == w.file.len()
    &&& r.world.input == w.input
    &&& match r.turn {
        None => {
            &&& t.state is Begin
            &&& t.wf()
            &&& r.cache.wf()
            &&& r.world == w
            &&& coherent(w, file.in_memory, m, want)
        },
        Some(Turn::Ask(request)) => if t.state is AwaitLen {
            &&& t.wf()
            &&& r.cache.wf()
            &&& request is FileLen
            &&& r.world == w
            &&& coherent(w, file.in_memory, m, want)
        } else {
            &&& t.in_range()
            &&& t.start < t.end
            &&& w.file.len() <= u64::MAX
            &&& t.end == t.read_end(w.file.len() as u64)
            &&& transfer_waits(t, r.cache, r.world, want, request)
            &&& given(r.world, w, offset, want, t.moved as int)
        },
        Some(Turn::Finished(Ok((n, end)))) => {
            &&& r.cache.wf()
            &&& coherent(r.world, file.in_memory, m, want)
            &&& end == offset + n
            &&& n == readable(w.file.len(), offset, remaining)
            &&& given(r.world, w, offset, want, n as int)
        },
        Some(Turn::Finished(Err(_))) => false,
    }
}

/// The number of bytes that a read gives.
pub open spec fn readable(len: nat, offset: u64, remaining: usize) -> int {
    if offset >= len {
        0
    } else if len - offset < remaining {
        len - offset
    } else {
        remaining as int
    }
}

/// Whether the reader was given `n` bytes since the world `w`, and those from
/// `offset` on that are wanted.
pub open spec fn given(r: World, w: World, offset: u64, want: Map<int, u8>, n: int) -> bool {
    &&& r.output.len() == w.output.len() + n
    &&& r.output.take(w.output.len() as int) == w.output
    &&& forall|i: int|
        0 <= i < n && want.dom().contains(offset + i) ==> #[trigger] r.output[w.output.len() + i]
            == want[offset + i]
}

/// A read that knows the length of the file turns to its first chunk.
proof fn lemma_read_knows_the_length(
    a: TransferRun,
    reply: Reply,
    answered: World,
    file: CachedFile,
    offset: u64,
    remaining: usize,
    w: World,
    want: Map<int, u8>,
)
    requires
        read_invariant(a, file, offset, remaining, w, want),
        a.turn matches Some(Turn::Ask(request)) && a.world.answers(request, reply, answered),
        a.machine.state is AwaitLen,
        a.machine.awaits(reply),
    ensures
        read_invariant(resumed(a, reply, answered), file, offset, remaining, w, want),
{
    reveal(resumed);
    let t = a.machine;
    let len = w.file.len() as u64;
    assert(answered.all_performed(Seq::empty()) == answered);
    assert(w.output.take(w.output.len() as int) =~= w.output);
    if t.read_end(len) > t.start {
        let u = Transfer { end: t.read_end(len), ..t };
        lemma_locating(u, a.cache, w, want);
        assert(t.after(a.cache, reply) == u.locating(a.cache));
    }
}

/// A read goes on with its fetch.
proof fn lemma_read_fetches(
    a: TransferRun,
    reply: Reply,
    answered: World,
    file: CachedFile,
    offset: u64,
    remaining: usize,
    w: World,
    want: Map<int, u8>,
)
    requires
        read_invariant(a, file, offset, remaining, w, want),
        a.turn matches Some(Turn::Ask(request)) && a.world.answers(request, reply, answered),
        a.machine.state is Fetching,
        a.machine.awaits(reply),
    ensures
        read_invariant(resumed(a, reply, answered), file, offset, remaining, w, want),
{
    let t = a.machine;
    if let Some(Turn::Ask(request)) = a.turn {
        lemma_waiting(t, a.cache, a.world, want, request);
        lemma_fetch_goes_on(t.fetch, a.cache, a.world, want, request, reply, answered);
        lemma_fetching(t, t.fetch, t.fetch.after(a.cache, reply), answered, want);
        lemma_fetch_cap(t.fetch, a.cache, reply);
        lemma_resumed_fetching(a, reply, answered);
    }
}

/// A transfer that fetches is resumed with its fetch.
proof fn lemma_resumed_fetching(a: TransferRun, reply: Reply, answered: World)
    requires
        a.machine.state is Fetching,
    ensures
        ({
            let s = a.machine.fetching(a.machine.fetch.after(a.cache, reply));
            resumed(a, reply, answered) == (TransferRun {
                machine: s.next,
                cache: s.cache,
                world: answered.all_performed(s.effects),
                turn: Some(s.turn),
            })
        }),
{
    reveal(resumed);
}

/// A write that has its length is resumed at its first chunk.
proof fn lemma_resumed_locating(a: TransferRun, reply: Reply, answered: World)
    requires
        !(a.machine.kind is Read),
        match a.machine.state {
            TransferState::AwaitGrow => reply is Done,
            TransferState::AwaitLen => reply matches Reply::Len(len) && a.machine.end <= len,
            _ => false,
        },
    ensures
        ({
            let s = a.machine.locating(a.cache);
            resumed(a, reply, answered) == (TransferRun {
                machine: s.next,
                cache: s.cache,
                world: answered.all_performed(s.effects),
                turn: Some(s.turn),
            })
        }),
{
    reveal(resumed);
}

/// A transfer that moved bytes is resumed behind them.
proof fn lemma_resumed_moving(a: TransferRun, reply: Reply, answered: World)
    requires
        a.machine.state is Moving,
        reply is Done,
    ensures
        ({
            let s = a.machine.moved_on(a.cache);
            resumed(a, reply, answered) == (TransferRun {
                machine: s.next,
                cache: s.cache,
                world: answered.all_performed(s.effects),
                turn: Some(s.turn),
            })
        }),
{
    reveal(resumed);
}

/// A read that handed bytes out goes on behind them.
proof fn lemma_read_hands_out(
    a: TransferRun,
    reply: Reply,
    answered: World,
    file: CachedFile,
    offset: u64,
    remaining: usize,
    w: World,
    want: Map<int, u8>,
)
    requires
        read_invariant(a, file, offset, remaining, w, want),
        a.turn matches Some(Turn::Ask(request)) && a.world.answers(request, reply, answered),
        a.machine.state is Moving,
        a.machine.awaits(reply),
    ensures
        read_invariant(resumed(a, reply, answered), file, offset, remaining, w, want),
{
    let t = a.machine;
    if let Some(Turn::Ask(request)) = a.turn {
        lemma_waiting(t, a.cache, a.world, want, request);
        assert(reply is Done);
        lemma_resumed_moving(a, reply, answered);
        let b = resumed(a, reply, answered);
        if t.part(t.page).1 > 0 {
            lemma_handed_out(t, a.cache, a.world, want, reply, answered);
            lemma_given_more(a.world, b.world, w, offset, want, t.moved as int, t.part(t.page).1);
        } else {
            lemma_relaxed(t, a.cache, a.world, want, reply, answered);
        }
    }
}

/// A stage of a read is followed by a stage of it.
proof fn lemma_read_moves(
    a: TransferRun,
    b: TransferRun,
    file: CachedFile,
    offset: u64,
    remaining: usize,
    w: World,
    want: Map<int, u8>,
)
    requires
        read_invariant(a, file, offset, remaining, w, want),
        transfer_moves(a, b),
    ensures
        read_invariant(b, file, offset, remaining, w, want),
{
    let t = a.machine;
    match a.turn {
        None => {
            reveal(resumed);
            assert(a.world.all_performed(Seq::empty()) == a.world);
        },
        Some(Turn::Ask(request)) => {
            let (reply, answered) = choose|reply: Reply, world: World| #[trigger]
                a.world.answers(request, reply, world) && a.machine.awaits(reply) && b == resumed(
                    a,
                    reply,
                    world,
                );
            if t.state is AwaitLen {
                lemma_read_knows_the_length(a, reply, answered, file, offset, remaining, w, want);
            } else {
                lemma_waiting(t, a.cache, a.world, want, request);
                if t.state is Fetching {
                    lemma_read_fetches(a, reply, answered, file, offset, remaining, w, want);
                } else {
                    lemma_read_hands_out(a, reply, answered, file, offset, remaining, w, want);
                }
            }
        },
        Some(Turn::Finished(_)) => {},
    }
}

/// A fetch changes nothing of a cache but its pages.
proof fn lemma_fetch_cap(f: PageFetch, cache: CacheView, reply: Reply)
    requires
        f.awaits(reply),
    ensures
        f.after(cache, reply).cache.cap == cache.cap,
{
    reveal(PageFetch::after);
}

/// More bytes given after others.
proof fn lemma_given_more(
    a: World,
    b: World,
    w: World,
    offset: u64,
    want: Map<int, u8>,
    k: int,
    n: int,
)
    requires
        0 <= k,
        0 <= n,
        given(a, w, offset, want, k),
        b.output.len() == a.output.len() + n,
        b.output.take(a.output.len() as int) == a.output,
        forall|i: int|
            0 <= i < n && want.dom().contains(offset + k + i) ==> #[trigger] b.output[a.output.len() + i]
                == want[offset + k + i],
    ensures
        given(b, w, offset, want, k + n),
{
    assert(b.output.take(w.output.len() as int) =~= w.output) by {
        assert forall|i: int| 0 <= i < w.output.len() implies b.output[i] == w.output[i] by {
            assert(b.output.take(a.output.len() as int)[i] == b.output[i]);
            assert(a.output.take(w.output.len() as int)[i] == a.output[i]);
        }
    }
    assert forall|i: int| 0 <= i < k + n && want.dom().contains(offset + i) implies #[trigger] b.output[w.output.len()
        + i] == want[offset + i] by {
        if i < k {
            assert(b.output.take(a.output.len() as int)[w.output.len() + i] == b.output[w.output.len()
                + i]);
            assert(a.output[w.output.len() + i] == want[offset + i]);
        } else {
            let j = i - k;
            assert(b.output[a.output.len() + j] == want[offset + k + j]);
        }
    }
}

/// What a read gives: the bytes of the file from its offset on, as many as the
/// buffer takes and the file has. The contents of the file stay.
pub proof fn law_read_gives_the_bytes(
    stages: Seq<TransferRun>,
    file: CachedFile,
    offset: u64,
    remaining: usize,
    cache: CacheView,
    w: World,
    want: Map<int, u8>,
)
    requires
        offset + remaining <= u64::MAX,
        cache.wf(),
        roomy(file.in_memory, cache),
        coherent(w, file.in_memory, page_map(cache.pages), want),
        transfer_runs(stages),
        stages[0] == starting(file.transfer_of(TransferKind::Read, offset, remaining), cache, w),
        stages.last().turn matches Some(Turn::Finished(_)),
    ensures
        ({
            let end = stages.last();
            let n = readable(w.file.len(), offset, remaining);
            &&& end.turn matches Some(Turn::Finished(Ok((k, p)))) && k == n && p == offset + n
            &&& given(end.world, w, offset, want, n)
            &&& end.cache.wf()
            &&& coherent(end.world, file.in_memory, page_map(end.cache.pages), want)
            &&& end.world.file.len() == w.file.len()
        }),
{
    lemma_read_stages(stages, stages.len() - 1, file, offset, remaining, w, want);
}

proof fn lemma_read_stages(
    stages: Seq<TransferRun>,
    i: int,
    file: CachedFile,
    offset: u64,
    remaining: usize,
    w: World,
    want: Map<int, u8>,
)
    requires
        transfer_runs(stages),
        0 <= i < stages.len(),
        read_invariant(stages[0], file, offset, remaining, w, want),
    ensures
        read_invariant(stages[i], file, offset, remaining, w, want),
    decreases i,
{
    if i > 0 {
        lemma_read_stages(stages, i - 1, file, offset, remaining, w, want);
        assert(transfer_moves(stages[i - 1], stages[i - 1 + 1]));
        lemma_read_moves(stages[i - 1], stages[i], file, offset, remaining, w, want);
    }
}

/// What holds at every stage of a write that started in the world `w`, with the
/// bytes that `want` gives.
pub open spec fn write_invariant(
    r: TransferRun,
    file: CachedFile,
    offset: u64,
    remaining: usize,
    cap: nat,
    w: World,
    want: Map<int, u8>,
) -> bool {
    let t = r.machine;
    let m = page_map(r.cache.pages);
    let end = offset + remaining;
    let len = if end > w.file.len() {
        end
    } else {
        w.file.len() as int
    };
    &&& t.file == file
    &&& !(t.kind is Read)
    &&& t.start == offset
    &&& t.remaining == remaining
    &&& t.end == end
    &&& r.cache.cap == cap
    &&& r.world.output == w.output
    &&& match r.turn {
        None => {
            &&& t.state is Begin
            &&& t.kind is Write
            &&& t.wf()
            &&& r.cache.wf()
            &&& r.world == w
            &&& coherent(w, file.in_memory, m, want)
        },
        Some(Turn::Ask(request)) => if t.state is AwaitLen {
            &&& t.wf()
            &&& r.cache.wf()
            &&& request is FileLen
            &&& r.world == w
            &&& coherent(w, file.in_memory, m, want)
        } else if t.state is AwaitGrow {
            &&& t.wf()
            &&& r.cache.wf()
            &&& request == Request::FileSetLen(t.end)
            &&& end > w.file.len()
            &&& r.world == w
            &&& coherent(w, file.in_memory, m, want)
        } else {
            &&& t.in_range()
            &&& r.world.file.len() == len
            &&& t.moved <= w.input.len()
            &&& r.world.input == w.input.skip(t.moved as int)
            &&& transfer_waits(
                t,
                r.cache,
                r.world,
                written(want, offset as int, w.input.take(t.moved as int)),
                request,
            )
        },
        Some(Turn::Finished(Ok((n, behind)))) => {
            &&& n == remaining
            &&& behind == end
            &&& r.cache.wf()
            &&& remaining <= w.input.len()
            &&& r.world.input == w.input.skip(remaining as int)
            &&& r.world.file.len() == len
            &&& coherent(
                r.world,
                file.in_memory,
                m,
                written(want, offset as int, w.input.take(remaining as int)),
            )
        },
        Some(Turn::Finished(Err(_))) => false,
    }
}

/// Nothing written over the wanted bytes leaves them as they are.
proof fn lemma_written_nothing(want: Map<int, u8>, start: int, data: Seq<u8>)
    requires
        data.len() == 0,
    ensures
        written(want, start, data) == want,
{
    assert(written(want, start, data) =~= want);
}

/// Bytes written behind others.
proof fn lemma_written_more(want: Map<int, u8>, start: int, input: Seq<u8>, k: int, n: int)
    requires
        0 <= k,
        0 <= n,
        k + n <= input.len(),
    ensures
        written(written(want, start, input.take(k)), start + k, input.skip(k).take(n)) == written(
            want,
            start,
            input.take(k + n),
        ),
        input.skip(k).skip(n) == input.skip(k + n),
{
    assert(written(written(want, start, input.take(k)), start + k, input.skip(k).take(n))
        =~= written(want, start, input.take(k + n)));
    assert(input.skip(k).skip(n) =~= input.skip(k + n));
}

/// A file that grows keeps its bytes.
proof fn lemma_grown(w: World, len: nat, in_memory: bool, m: Map<u32, PageCache>, want: Map<int, u8>)
    requires
        coherent(w, in_memory, m, want),
        w.file.len() <= len,
    ensures
        coherent(World { file: resized(w.file, len), ..w }, in_memory, m, want),
{
    let after = World { file: resized(w.file, len), ..w };
    assert forall|p: u32| #[trigger] m.dom().contains(p) implies owned(after, m[p]) by {
        assert(owned(w, m[p]));
    }
    assert forall|b: int, p: u32|
        #![trigger want.dom().contains(b), holds(m, p, b)]
        want.dom().contains(b) && holds(m, p, b) implies held(after, m, p, b) == want[b] && (in_memory
        || m[p].dirty || after.file[b] == want[b]) by {
        assert(held(w, m, p, b) == want[b]);
        assert(after.file[b] == w.file[b]);
    }
    assert forall|b: int| #[trigger] want.dom().contains(b) && uncached(m, b) implies backing(
        after,
        in_memory,
        b,
    ) == want[b] by {
        assert(backing(w, in_memory, b) == want[b]);
        assert(after.file[b] == w.file[b]);
    }
}

/// A write that knows the length of the file, or made it longer, turns to its first
/// chunk.
proof fn lemma_write_turns_to_its_chunk(
    a: TransferRun,
    reply: Reply,
    answered: World,
    file: CachedFile,
    offset: u64,
    remaining: usize,
    cap: nat,
    w: World,
    want: Map<int, u8>,
)
    requires
        offset + remaining <= crate::fs::cache::MAX_OFFSET,
        file.in_memory ==> cap > 0x1_0000_0000,
        write_invariant(a, file, offset, remaining, cap, w, want),
        a.turn matches Some(Turn::Ask(request)) && a.world.answers(request, reply, answered),
        a.machine.awaits(reply),
        a.machine.state is AwaitLen || a.machine.state is AwaitGrow,
    ensures
        write_invariant(resumed(a, reply, answered), file, offset, remaining, cap, w, want),
{
    let t = a.machine;
    lemma_written_nothing(want, offset as int, w.input.take(0));
    assert(w.input.skip(0) =~= w.input);
    if t.state is AwaitGrow {
        lemma_grown(w, t.end as nat, file.in_memory, page_map(a.cache.pages), want);
        lemma_locating(t, a.cache, answered, want);
        lemma_resumed_locating(a, reply, answered);
    } else if t.end <= w.file.len() {
        lemma_locating(t, a.cache, w, want);
        lemma_resumed_locating(a, reply, answered);
    } else {
        reveal(resumed);
        assert(answered.all_performed(Seq::empty()) == answered);
    }
}

/// A write goes on with its fetch.
proof fn lemma_write_fetches(
    a: TransferRun,
    reply: Reply,
    answered: World,
    file: CachedFile,
    offset: u64,
    remaining: usize,
    cap: nat,
    w: World,
    want: Map<int, u8>,
)
    requires
        offset + remaining <= crate::fs::cache::MAX_OFFSET,
        file.in_memory ==> cap > 0x1_0000_0000,
        write_invariant(a, file, offset, remaining, cap, w, want),
        a.turn matches Some(Turn::Ask(request)) && a.world.answers(request, reply, answered),
        a.machine.awaits(reply),
        a.machine.state is Fetching,
    ensures
        write_invariant(resumed(a, reply, answered), file, offset, remaining, cap, w, want),
{
    let t = a.machine;
    if let Some(Turn::Ask(request)) = a.turn {
        let now = written(want, offset as int, w.input.take(t.moved as int));
        lemma_waiting(t, a.cache, a.world, now, request);
        lemma_fetch_goes_on(t.fetch, a.cache, a.world, now, request, reply, answered);
        lemma_fetching(t, t.fetch, t.fetch.after(a.cache, reply), answered, now);
        lemma_fetch_cap(t.fetch, a.cache, reply);
        lemma_resumed_fetching(a, reply, answered);
    }
}

/// A write that took bytes in goes on behind them.
proof fn lemma_write_takes_in(
    a: TransferRun,
    reply: Reply,
    answered: World,
    file: CachedFile,
    offset: u64,
    remaining: usize,
    cap: nat,
    w: World,
    want: Map<int, u8>,
)
    requires
        offset + remaining <= crate::fs::cache::MAX_OFFSET,
        file.in_memory ==> cap > 0x1_0000_0000,
        write_invariant(a, file, offset, remaining, cap, w, want),
        a.turn matches Some(Turn::Ask(request)) && a.world.answers(request, reply, answered),
        a.machine.awaits(reply),
        a.machine.state is Moving,
    ensures
        write_invariant(resumed(a, reply, answered), file, offset, remaining, cap, w, want),
{
    let t = a.machine;
    if let Some(Turn::Ask(request)) = a.turn {
        let now = written(want, offset as int, w.input.take(t.moved as int));
        lemma_waiting(t, a.cache, a.world, now, request);
        assert(reply is Done);
        lemma_resumed_moving(a, reply, answered);
        let n = t.part(t.page).1;
        if n > 0 {
            lemma_taken_in(t, a.cache, a.world, now, reply, answered);
            lemma_written_more(want, offset as int, w.input, t.moved as int, n);
        } else {
            lemma_relaxed(t, a.cache, a.world, now, reply, answered);
        }
    }
}

/// A stage of a write is followed by a stage of it.
proof fn lemma_write_moves(
    a: TransferRun,
    b: TransferRun,
    file: CachedFile,
    offset: u64,
    remaining: usize,
    cap: nat,
    w: World,
    want: Map<int, u8>,
)
    requires
        offset + remaining <= crate::fs::cache::MAX_OFFSET,
        file.in_memory ==> cap > 0x1_0000_0000,
        write_invariant(a, file, offset, remaining, cap, w, want),
        transfer_moves(a, b),
    ensures
        write_invariant(b, file, offset, remaining, cap, w, want),
{
    let t = a.machine;
    match a.turn {
        None => {
            reveal(resumed);
            assert(a.world.all_performed(Seq::empty()) == a.world);
        },
        Some(Turn::Ask(request)) => {
            let (reply, answered) = choose|reply: Reply, world: World| #[trigger]
                a.world.answers(request, reply, world) && a.machine.awaits(reply) && b == resumed(
                    a,
                    reply,
                    world,
                );
            if t.state is AwaitLen || t.state is AwaitGrow {
                lemma_write_turns_to_its_chunk(
                    a,
                    reply,
                    answered,
                    file,
                    offset,
                    remaining,
                    cap,
                    w,
                    want,
                );
            } else {
                let now = written(want, offset as int, w.input.take(t.moved as int));
                lemma_waiting(t, a.cache, a.world, now, request);
                if t.state is Fetching {
                    lemma_write_fetches(a, reply, answered, file, offset, remaining, cap, w, want);
                } else {
                    lemma_write_takes_in(a, reply, answered, file, offset, remaining, cap, w, want);
                }
            }
        },
        Some(Turn::Finished(_)) => {},
    }
}

proof fn lemma_write_stages(
    stages: Seq<TransferRun>,
    i: int,
    file: CachedFile,
    offset: u64,
    remaining: usize,
    cap: nat,
    w: World,
    want: Map<int, u8>,
)
    requires
        offset + remaining <= crate::fs::cache::MAX_OFFSET,
        file.in_memory ==> cap > 0x1_0000_0000,
        transfer_runs(stages),
        0 <= i < stages.len(),
        write_invariant(stages[0], file, offset, remaining, cap, w, want),
    ensures
        write_invariant(stages[i], file, offset, remaining, cap, w, want),
    decreases i,
{
    if i > 0 {
        lemma_write_stages(stages, i - 1, file, offset, remaining, cap, w, want);
        assert(transfer_moves(stages[i - 1], stages[i - 1 + 1]));
        lemma_write_moves(stages[i - 1], stages[i], file, offset, remaining, cap, w, want);
    }
}

/// What a write does: the file has the writer's bytes from its offset on, and
/// every other byte that it had before. It is as long as it was, or as the write
/// needs.
pub proof fn law_write_puts_the_bytes(
    stages: Seq<TransferRun>,
    file: CachedFile,
    offset: u64,
    remaining: usize,
    cache: CacheView,
    w: World,
    want: Map<int, u8>,
)
    requires
        offset + remaining <= crate::fs::cache::MAX_OFFSET,
        cache.wf(),
        roomy(file.in_memory, cache),
        coherent(w, file.in_memory, page_map(cache.pages), want),
        transfer_runs(stages),
        stages[0] == starting(file.transfer_of(TransferKind::Write, offset, remaining), cache, w),
        stages.last().turn matches Some(Turn::Finished(_)),
    ensures
        ({
            let end = stages.last();
            &&& end.turn matches Some(Turn::Finished(Ok((k, p)))) && k == remaining && p == offset
                + remaining
            &&& remaining <= w.input.len()
            &&& end.world.input == w.input.skip(remaining as int)
            &&& end.world.file.len() == (if offset + remaining > w.file.len() {
                offset + remaining
            } else {
                w.file.len() as int
            })
            &&& end.cache.wf()
            &&& end.cache.cap == cache.cap
            &&& coherent(
                end.world,
                file.in_memory,
                page_map(end.cache.pages),
                written(want, offset as int, w.input.take(remaining as int)),
            )
        }),
{
    lemma_write_stages(stages, stages.len() - 1, file, offset, remaining, cache.cap, w, want);
}

/// An append asks for the length of the file first.
proof fn lemma_append_begins(a: TransferRun, b: TransferRun)
    requires
        a.turn is None,
        a.machine.state is Begin,
        a.machine.kind is Append,
        transfer_moves(a, b),
    ensures
        b.turn == Some(Turn::<(usize, u64)>::Ask(Request::FileLen)),
        b.machine == (Transfer { state: TransferState::AwaitEnd, ..a.machine }),
        b.world == a.world,
        b.cache == a.cache,
{
    reveal(resumed);
    assert(a.world.all_performed(Seq::empty()) == a.world);
}

/// An append that knows where the file ends is a write there.
proof fn lemma_append_knows_the_end(a: TransferRun, b: TransferRun)
    requires
        a.turn == Some(Turn::<(usize, u64)>::Ask(Request::FileLen)),
        a.machine.state is AwaitEnd,
        transfer_moves(a, b),
    ensures
        a.world.file.len() + a.machine.remaining <= crate::fs::cache::MAX_OFFSET,
        b.turn == Some(Turn::<(usize, u64)>::Ask(Request::FileLen)),
        b.machine == (Transfer {
            start: a.world.file.len() as u64,
            end: (a.world.file.len() + a.machine.remaining) as u64,
            state: TransferState::AwaitLen,
            ..a.machine
        }),
        b.world == a.world,
        b.cache == a.cache,
{
    reveal(resumed);
    assert(a.world.all_performed(Seq::empty()) == a.world);
}

/// What an append does: the file has the writer's bytes behind what it had
/// before, and is longer by them; the position behind them is its new length.
pub proof fn law_append_goes_behind_the_end(
    stages: Seq<TransferRun>,
    file: CachedFile,
    remaining: usize,
    cache: CacheView,
    w: World,
    want: Map<int, u8>,
)
    requires
        cache.wf(),
        roomy(file.in_memory, cache),
        coherent(w, file.in_memory, page_map(cache.pages), want),
        transfer_runs(stages),
        stages[0] == starting(file.transfer_of(TransferKind::Append, 0, remaining), cache, w),
        stages.last().turn matches Some(Turn::Finished(_)),
    ensures
        ({
            let end = stages.last();
            let len = w.file.len();
            &&& end.turn matches Some(Turn::Finished(Ok((k, p)))) && k == remaining && p == len
                + remaining
            &&& remaining <= w.input.len()
            &&& end.world.input == w.input.skip(remaining as int)
            &&& end.world.file.len() == len + remaining
            &&& end.cache.wf()
            &&& end.cache.cap == cache.cap
            &&& coherent(
                end.world,
                file.in_memory,
                page_map(end.cache.pages),
                written(want, len as int, w.input.take(remaining as int)),
            )
        }),
{
    assert(transfer_moves(stages[0], stages[0int + 1]));
    lemma_append_begins(stages[0], stages[1]);
    assert(stages.len() > 2);
    assert(transfer_moves(stages[1], stages[1int + 1]));
    lemma_append_knows_the_end(stages[1], stages[2]);
    let len = w.file.len() as u64;
    let rest = stages.skip(2);
    assert(transfer_runs(rest)) by {
        assert forall|i: int| 0 <= i < rest.len() - 1 implies transfer_moves(
            #[trigger] rest[i],
            rest[i + 1],
        ) by {
            assert(transfer_moves(stages[i + 2], stages[i + 2 + 1]));
        }
    }
    lemma_write_stages(rest, rest.len() - 1, file, len, remaining, cache.cap, w, want);
    assert(rest.last() == stages.last());
}

/// What was written at an offset is what a read there gives.
pub proof fn law_read_gives_back_what_was_written(
    writing: Seq<TransferRun>,
    reading: Seq<TransferRun>,
    file: CachedFile,
    offset: u64,
    remaining: usize,
    cache: CacheView,
    w: World,
    want: Map<int, u8>,
)
    requires
        offset + remaining <= crate::fs::cache::MAX_OFFSET,
        cache.wf(),
        roomy(file.in_memory, cache),
        coherent(w, file.in_memory, page_map(cache.pages), want),
        transfer_runs(writing),
        writing[0] == starting(file.transfer_of(TransferKind::Write, offset, remaining), cache, w),
        writing.last().turn matches Some(Turn::Finished(_)),
        transfer_runs(reading),
        reading[0] == starting(
            file.transfer_of(TransferKind::Read, offset, remaining),
            writing.last().cache,
            writing.last().world,
        ),
        reading.last().turn matches Some(Turn::Finished(_)),
    ensures
        reading.last().world.output == writing.last().world.output + w.input.take(remaining as int),
{
    law_write_puts_the_bytes(writing, file, offset, remaining, cache, w, want);
    let mid = writing.last();
    let all = written(want, offset as int, w.input.take(remaining as int));
    law_read_gives_the_bytes(reading, file, offset, remaining, mid.cache, mid.world, all);
    let end = reading.last();
    let n = readable(mid.world.file.len(), offset, remaining);
    assert(n == remaining);
    assert forall|i: int| 0 <= i < end.world.output.len() implies end.world.output[i] == (
    mid.world.output + w.input.take(remaining as int))[i] by {
        if i < mid.world.output.len() {
            assert(end.world.output.take(mid.world.output.len() as int)[i] == end.world.output[i]);
        } else {
            let j = i - mid.world.output.len();
            assert(all.dom().contains(offset + j));
            assert(end.world.output[mid.world.output.len() + j] == all[offset + j]);
        }
    }
    assert(end.world.output =~= mid.world.output + w.input.take(remaining as int));
}

} // verus!
