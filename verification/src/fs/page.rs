//! Pages of the page cache.

use vstd::prelude::*;
use crate::addr::{PAGE_SIZE_2M, PAGE_SIZE_4K};
use crate::error::VfsError;
use crate::memory::{alloc_pages, frame_of, phys_of, PageRequest, Usage};

verus! {

/// What a listener of a page cache is asked to do with a page.
#[derive(Debug, Clone, Copy, PartialEq, Eq, Structural)]
pub enum PageOperation {
    /// Unmap the page from page tables.
    Unmap,
    /// Replace a huge mapping of the page by small ones.
    Demote,
}

/// A page of a file that is held in memory: where it lies, how long it is, and
/// whether it was written since it was last in step with the file.
#[derive(Debug, Clone, Copy, PartialEq, Eq, Structural)]
pub struct PageCache {
    pub paddr: usize,
    pub dirty: bool,
    pub size: usize,
}

/// Whether `size` is a size that a cached page may have.
pub open spec fn is_cache_page_size(size: usize) -> bool {
    size == PAGE_SIZE_4K || size == PAGE_SIZE_2M
}

impl PageCache {
    /// Whether the page is a small or a huge one that lies within the address
    /// space.
    pub open spec fn wf(self) -> bool {
        is_cache_page_size(self.size) && self.paddr + self.size <= usize::MAX
    }
}

/// The page that an allocation of `size` bytes gives.
pub open spec fn allocated(
    addr: Option<usize>,
    size: usize,
    phys_virt_offset: usize,
) -> Result<PageCache, VfsError> {
    match addr {
        Some(vaddr) => Ok(
            PageCache { paddr: phys_of(vaddr, phys_virt_offset), dirty: false, size },
        ),
        None => Err(VfsError::NoMemory),
    }
}

impl PageCache {
    /// What the allocator is asked for where a page of `size` bytes is needed: the
    /// small pages of the page, aligned to its size.
    pub fn request(size: usize) -> (r: PageRequest)
        requires
            is_cache_page_size(size),
        ensures
            r == (PageRequest {
                num_pages: size / PAGE_SIZE_4K,
                align: size,
                usage: Usage::PageCache,
            }),
    {
        PageRequest { num_pages: size / PAGE_SIZE_4K, align: size, usage: Usage::PageCache }
    }

    /// Allocates a page of `size` bytes, as [`PageCache::request`] asks for it. Its
    /// contents are whatever the memory held before.
    pub fn new(size: usize, phys_virt_offset: usize) -> (r: Result<PageCache, VfsError>)
        requires
            is_cache_page_size(size),
        ensures
            exists|addr: Option<usize>|
                #![trigger allocated(addr, size, phys_virt_offset)]
                r == allocated(addr, size, phys_virt_offset) && (addr matches Some(vaddr) ==> vaddr as int
                    % size as int == 0),
    {
        let q: PageRequest = PageCache::request(size);
        let addr: Option<usize> = alloc_pages(q.num_pages, q.align, q.usage);
        proof {
            let _ = allocated(addr, size, phys_virt_offset);
        }
        PageCache::from_allocation(addr, size, phys_virt_offset)
    }

    /// The page that an allocation of `size` bytes gives.
    pub fn from_allocation(
        addr: Option<usize>,
        size: usize,
        phys_virt_offset: usize,
    ) -> (r: Result<PageCache, VfsError>)
        ensures
            r == allocated(addr, size, phys_virt_offset),
    {
        match frame_of(addr, phys_virt_offset) {
            Ok(paddr) => Ok(PageCache::from_addr(paddr, size)),
            Err(e) => Err(e),
        }
    }

    /// The clean page over memory that the caller owns.
    pub fn from_addr(paddr: usize, size: usize) -> (r: PageCache)
        ensures
            r == (PageCache { paddr, dirty: false, size }),
    {
        PageCache { paddr, dirty: false, size }
    }

    /// The physical address of the page.
    pub fn paddr(&self) -> (r: usize)
        ensures
            r == self.paddr,
    {
        self.paddr
    }

    /// Notes that the page was written.
    pub fn mark_dirty(&mut self)
        ensures
            *final(self) == (PageCache { dirty: true, ..*old(self) }),
    {
        self.dirty = true;
    }

    /// Whether the page was written since it was last in step with the file.
    pub fn is_dirty(&self) -> (r: bool)
        ensures
            r == self.dirty,
    {
        self.dirty
    }

    /// The memory of the page: its first physical address and its length.
    pub fn data(&self) -> (r: (usize, usize))
        ensures
            r == (self.paddr, self.size),
    {
        (self.paddr, self.size)
    }

    /// The number of bytes in the page.
    pub fn size(&self) -> (r: usize)
        ensures
            r == self.size,
    {
        self.size
    }
}

} // verus!
