# axcache

A page cache for files and the memory mappings of an address space, verified with
[Verus](https://github.com/verus-lang/verus).

The library in `src/` makes every decision: which page is read, written back,
evicted, merged into a huge page or split, which frame is copied on a write, when
a frame is given back. It performs no I/O and touches no memory. An operation that
needs the world is a value with a `step` method; each step takes the reply to the
last request, lists the effects that are to be carried out now, and returns the
next request or the result.

## Layout

- `src/effect.rs`: requests, replies and effects.
- `src/fs/`: the page cache (`cache`, `recency`, `caches`), operations on cached
  files (`fetch`, `evict`, `transfer`, `resize`, `sync`, `merge`, `split`,
  `reclaim`), and open files (`file`, `options`, `backend`).
- `src/mm/`: linear mappings (`linear`), private memory that is copied on a write
  (`cow*`), shared memory (`shared*`), mapped files (`file*`), the counts of
  frames (`frames`), the decision for huge pages (`scan`, `*_try`, `policy`).
- `src/fs/world.rs` and `src/mm/space.rs`: models of a file, of memory and of a
  page table. The modules that end in `_law` prove over them what the operations
  come to: a read gives back what was written, an append goes behind the end, a
  sync brings the file in step, merging and splitting huge pages and reclaiming
  memory keep the bytes, collapsing a window keeps what its addresses read, private
  pages are copied before they are written while shared, frames are given back with
  their last mapping, a mapping shows the pages of its cache, and a population
  counts the pages that satisfy the access.
- `tests/`: the same on concrete values, against small models.
- `app/`: what surrounds the library in a kernel: locks, physical memory, the
  virtual filesystem, page tables, listeners.

## Trusted

`lru`, `memory_addr` and `axalloc` do their work behind declarations in
`src/fs/recency.rs`, `src/addr.rs` and `src/memory.rs`, and `str::trim` behind one
in `src/text.rs`; each says what is taken to hold.
