//! What pages of memory are asked for and come to.

use vstd::prelude::*;
use crate::addr::{divide_page, is_whole_huge, pages_in, PageSize, VirtAddrRange};
use crate::error::{AxError, PagingError, VfsError};
use crate::fs::page::PageCache;
use crate::memory::{frame_of, frame_request, PageRequest};

verus! {

/// For a frame or a page the allocator is asked for as many small pages as it has
/// bytes in all, aligned to its size, each for its use.
pub proof fn law_pages_are_asked_for_by_their_size(
    size: PageSize,
    frame: PageRequest,
    bytes: usize,
    page: PageRequest,
)
    requires
        call_ensures(frame_request, (size,), frame),
        bytes == 4096 || bytes == 2_097_152,
        call_ensures(PageCache::request, (bytes,), page),
    ensures
        frame.num_pages * 4096 == (match size {
            PageSize::Size4K => 4096int,
            PageSize::Size2M => 2_097_152,
            PageSize::Size1G => 1_073_741_824,
        }),
        frame.align == frame.num_pages * 4096,
        frame.usage is UserMem,
        page.num_pages * 4096 == bytes,
        page.align == bytes,
        page.usage is PageCache,
{
}

/// The physical address of an allocation is as far behind the start of memory as its
/// address is behind that of the linear mapping, up to a multiple of the whole address
/// space. A page that is made of it is clean and has the given size. Without memory
/// both fail.
pub proof fn law_allocations_become_pages(
    addr: Option<usize>,
    start: usize,
    frame: Result<usize, AxError>,
    bytes: usize,
    page: Result<PageCache, VfsError>,
)
    requires
        call_ensures(frame_of, (addr, start), frame),
        call_ensures(PageCache::from_allocation, (addr, bytes, start), page),
    ensures
        match addr {
            Some(va) => {
                &&& frame matches Ok(paddr) && (paddr == va - start || paddr == va - start
                    + usize::MAX + 1)
                &&& page matches Ok(p) && frame == Ok::<usize, AxError>(p.paddr) && !p.dirty && p.size
                    == bytes
            },
            None => {
                &&& frame == Err::<usize, AxError>(AxError::NoMemory)
                &&& page == Err::<PageCache, VfsError>(AxError::NoMemory)
            },
        },
{
}

/// A page over given memory is clean until it is marked, and tells its memory.
pub proof fn law_pages_are_clean_until_marked(
    paddr: usize,
    bytes: usize,
    p: PageCache,
    m: &mut PageCache,
    clean: bool,
    marked: bool,
    data: (usize, usize),
    at: usize,
    size: usize,
)
    requires
        call_ensures(PageCache::from_addr, (paddr, bytes), p),
        *m == p,
        call_ensures(PageCache::mark_dirty, (m,), ()),
        call_ensures(PageCache::is_dirty, (&p,), clean),
        call_ensures(PageCache::is_dirty, (&*final(m),), marked),
        call_ensures(PageCache::data, (&*final(m),), data),
        call_ensures(PageCache::paddr, (&*final(m),), at),
        call_ensures(PageCache::size, (&*final(m),), size),
    ensures
        !clean,
        marked,
        data == (paddr, bytes),
        at == paddr,
        size == bytes,
{
}

/// The pages of a range follow each other from its start to its end. A range whose
/// ends are not those of pages has none.
pub proof fn law_pages_of_a_range(
    range: VirtAddrRange,
    r: Result<Vec<usize>, AxError>,
    va: usize,
    whole: bool,
)
    requires
        range.start <= range.end,
        call_ensures(pages_in, (range, PageSize::Size4K), r),
        va + 2_097_152 <= usize::MAX,
        call_ensures(is_whole_huge, (va, range.end), whole),
    ensures
        r is Ok <==> range.start as int % 4096 == 0 && range.end as int % 4096 == 0,
        r matches Err(e) ==> e is InvalidInput,
        r matches Ok(v) ==> v@.len() * 4096 == range.end - range.start && forall|i: int|
            0 <= i < v@.len() ==> #[trigger] v@[i] == range.start + i * 4096,
        whole <==> va as int % 2_097_152 == 0 && va + 2_097_152 <= range.end,
{
    if r is Ok {
        let d = range.end - range.start;
        assert(d % 4096 == 0);
        assert(d / 4096 * 4096 == d);
    }
}

/// A range has the addresses from its start on, as many as its size says.
pub proof fn law_range_holds_its_addresses(
    start: usize,
    n: usize,
    range: VirtAddrRange,
    size: usize,
    va: usize,
    inside: bool,
    page: PageSize,
    aligned: bool,
    first: bool,
    bytes: usize,
)
    requires
        call_ensures(VirtAddrRange::from_start_size, (start, n), range),
        call_ensures(VirtAddrRange::size, (&range,), size),
        call_ensures(VirtAddrRange::contains, (&range, va), inside),
        call_ensures(PageSize::bytes, (page,), bytes),
        call_ensures(VirtAddrRange::is_aligned_to, (&range, page), aligned),
        call_ensures(PageSize::is_aligned, (page, start), first),
    ensures
        size == n,
        inside <==> 0 <= va - start < n,
        bytes == (match page {
            PageSize::Size4K => 4096usize,
            PageSize::Size2M => 2_097_152,
            PageSize::Size1G => 1_073_741_824,
        }),
        first <==> start as int % bytes as int == 0,
        aligned <==> first && n as int % bytes as int == 0,
{
    let b = bytes as int;
    if start as int % b == 0 {
        vstd::arithmetic::div_mod::lemma_mod_adds(start as int, n as int, b);
        vstd::arithmetic::div_mod::lemma_add_mod_noop(start as int, n as int, b);
    }
}

/// A page table that has no memory fails with that, any other fault is one of the
/// input.
pub proof fn law_faults_become_errors(e: PagingError, r: AxError, size: usize, n: usize)
    requires
        call_ensures(PagingError::into_error, (e,), r),
        size as int % 4096 == 0,
        call_ensures(divide_page, (size, PageSize::Size4K), n),
    ensures
        e is NoMemory ==> r is NoMemory,
        !(e is NoMemory) ==> r is InvalidInput,
        n * 4096 == size,
{
}

} // verus!
