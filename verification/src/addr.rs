//! Page sizes, alignment and address ranges.

use vstd::prelude::*;
use crate::error::AxError;

verus! {

/// The size of a small page in bytes.
pub const PAGE_SIZE_4K: usize = 4096;

/// The size of a huge page in bytes.
pub const PAGE_SIZE_2M: usize = 2_097_152;

/// The size of the largest page in bytes.
pub const PAGE_SIZE_1G: usize = 1_073_741_824;

/// The bytes of a transparent huge page.
pub const THP_PAGE_BYTES: usize = 2_097_152;

/// The number of small pages in a huge page.
pub const THP_NR_4K_PAGES: u32 = 512;

/// The page sizes of the page table.
#[derive(Debug, Clone, Copy, PartialEq, Eq, Structural)]
pub enum PageSize {
    Size4K,
    Size2M,
    Size1G,
}

impl PageSize {
    /// The number of bytes in a page of this size.
    #[verifier::allow_in_spec]
    pub fn bytes(self) -> (r: usize)
        returns
            (match self {
                PageSize::Size4K => PAGE_SIZE_4K,
                PageSize::Size2M => PAGE_SIZE_2M,
                PageSize::Size1G => PAGE_SIZE_1G,
            }),
    {
        match self {
            PageSize::Size4K => PAGE_SIZE_4K,
            PageSize::Size2M => PAGE_SIZE_2M,
            PageSize::Size1G => PAGE_SIZE_1G,
        }
    }

    /// The size of the largest page that a mapping with pages of this size can
    /// come to hold: huge pages may stand for small ones.
    pub open spec fn largest(self) -> PageSize {
        if self is Size4K {
            PageSize::Size2M
        } else {
            self
        }
    }

    /// Whether an address or a size is a multiple of this page size.
    #[verifier::allow_in_spec]
    pub fn is_aligned(self, addr: usize) -> (r: bool)
        returns
            addr as int % self.bytes() as int == 0,
    {
        is_aligned(addr, self.bytes())
    }
}

/// Whether `align` is one of the page sizes.
pub open spec fn is_page_size(align: usize) -> bool {
    align == PAGE_SIZE_4K || align == PAGE_SIZE_2M || align == PAGE_SIZE_1G
}

/// `memory_addr::is_aligned` tells whether an address is a multiple of a power
/// of two. It is stated here for the page sizes.
pub assume_specification[ memory_addr::is_aligned ](addr: usize, align: usize) -> (r: bool)
    requires
        is_page_size(align),
    ensures
        r == (addr as int % align as int == 0),
;

/// `memory_addr::align_down` gives the greatest multiple of a power of two that
/// is not above an address. It is stated here for the page sizes.
pub assume_specification[ memory_addr::align_down ](addr: usize, align: usize) -> (r: usize)
    requires
        is_page_size(align),
    ensures
        r == addr - addr as int % align as int,
;

/// The addresses of the pages of `page_size` bytes from `start` up to `end`.
pub open spec fn page_starts(start: int, end: int, page_size: int) -> Seq<usize> {
    Seq::new(
        if start < end {
            ((end - start) / page_size) as nat
        } else {
            0
        },
        |i: int| (start + i * page_size) as usize,
    )
}

/// Each small page of an aligned range is aligned and lies in the range.
pub proof fn lemma_page_starts(start: usize, end: usize, va: usize)
    requires
        start as int % PAGE_SIZE_4K as int == 0,
        end as int % PAGE_SIZE_4K as int == 0,
        page_starts(start as int, end as int, PAGE_SIZE_4K as int).contains(va),
    ensures
        va as int % PAGE_SIZE_4K as int == 0,
        start <= va,
        va + PAGE_SIZE_4K <= end,
{
    let s = page_starts(start as int, end as int, PAGE_SIZE_4K as int);
    let i = choose|i: int| 0 <= i < s.len() && s[i] == va;
    assert(s[i] == (start + i * PAGE_SIZE_4K) as usize);
}

/// `memory_addr::DynPageIter` walks a range page by page. It exists exactly if
/// both ends are multiples of the page size, and then gives the first address
/// of each page in rising order.
#[verifier::external_body]
fn dyn_pages(start: usize, end: usize, page_size: usize) -> (r: Option<Vec<usize>>)
    requires
        is_page_size(page_size),
    ensures
        (r is Some) == (start as int % page_size as int == 0 && end as int % page_size as int == 0),
        r matches Some(v) ==> v@ == page_starts(start as int, end as int, page_size as int),
{
    memory_addr::DynPageIter::<usize>::new(start, end, page_size).map(|pages| pages.collect())
}

/// A range of virtual addresses.
#[derive(Debug, Clone, Copy, PartialEq, Eq, Structural)]
pub struct VirtAddrRange {
    pub start: usize,
    pub end: usize,
}

impl VirtAddrRange {
    /// Whether the range does not end before it starts.
    pub open spec fn wf(self) -> bool {
        self.start <= self.end
    }

    /// Whether the range ends so far below the end of the address space that a
    /// page of the given size fits behind it.
    pub open spec fn low(self, size: PageSize) -> bool {
        self.start <= self.end && self.end + size.bytes() <= usize::MAX
    }

    /// The range of `size` bytes from `start`.
    pub fn from_start_size(start: usize, size: usize) -> (r: VirtAddrRange)
        requires
            start + size <= usize::MAX,
        ensures
            r.start == start,
            r.end == start + size,
            r.wf(),
    {
        VirtAddrRange { start, end: start + size }
    }

    /// The number of bytes in the range.
    pub fn size(&self) -> (r: usize)
        requires
            self.wf(),
        ensures
            r == self.end - self.start,
    {
        self.end - self.start
    }

    /// Whether an address is in the range.
    pub fn contains(&self, va: usize) -> (r: bool)
        ensures
            r == (self.start <= va < self.end),
    {
        self.start <= va && va < self.end
    }

    /// Whether both ends are multiples of a page size.
    pub open spec fn aligned_to(self, size: PageSize) -> bool {
        self.start as int % size.bytes() as int == 0 && self.end as int % size.bytes() as int == 0
    }

    /// Whether both ends are multiples of a page size.
    pub fn is_aligned_to(&self, size: PageSize) -> (r: bool)
        ensures
            r == self.aligned_to(size),
    {
        size.is_aligned(self.start) && size.is_aligned(self.end)
    }
}

/// The pages of a range, or `InvalidInput` if an end of the range is not a
/// multiple of the page size.
pub fn pages_in(range: VirtAddrRange, align: PageSize) -> (r: Result<Vec<usize>, AxError>)
    ensures
        range.aligned_to(align) ==> r is Ok,
        !range.aligned_to(align) ==> r == Err::<Vec<usize>, AxError>(AxError::InvalidInput),
        r matches Ok(v) ==> v@ == page_starts(
            range.start as int,
            range.end as int,
            align.bytes() as int,
        ),
{
    match dyn_pages(range.start, range.end, align.bytes()) {
        Some(pages) => Ok(pages),
        None => Err(AxError::InvalidInput),
    }
}

/// The number of pages in `size` bytes.
pub fn divide_page(size: usize, page_size: PageSize) -> (r: usize)
    requires
        page_size.is_aligned(size),
    ensures
        r as int * page_size.bytes() as int == size as int,
{
    let n: usize = size / page_size.bytes();
    proof {
        let d = page_size.bytes() as int;
        vstd::arithmetic::div_mod::lemma_fundamental_div_mod(size as int, d);
        assert(n as int * d == d * n as int) by (nonlinear_arith);
    }
    n
}

/// The first address of the huge page around an address.
pub open spec fn huge_base(va: usize) -> int {
    va - va as int % PAGE_SIZE_2M as int
}

/// Whether a huge page starts at `va` and ends at or before `end`.
pub open spec fn whole_huge(va: usize, end: usize) -> bool {
    va as int % PAGE_SIZE_2M as int == 0 && va + PAGE_SIZE_2M <= end
}

/// Whether a huge page starts at `va` and ends at or before `end`.
pub fn is_whole_huge(va: usize, end: usize) -> (r: bool)
    requires
        va + PAGE_SIZE_2M <= usize::MAX,
    ensures
        r == whole_huge(va, end),
{
    let huge_start: usize = memory_addr::align_down(va, PAGE_SIZE_2M);
    va == huge_start && huge_start + PAGE_SIZE_2M <= end
}

/// Whether an address is a multiple of a page size.
pub fn is_aligned(addr: usize, align: usize) -> (r: bool)
    requires
        is_page_size(align),
    ensures
        r == (addr as int % align as int == 0),
{
    memory_addr::is_aligned(addr, align)
}

} // verus!
