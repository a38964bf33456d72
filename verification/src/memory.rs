//! Physical frames: where they come from and how their addresses are computed.

use vstd::prelude::*;
use crate::addr::{is_page_size, PageSize, PAGE_SIZE_4K};
use crate::error::AxError;

verus! {

/// What the pages of an allocation are used for.
#[derive(Debug, Clone, Copy, PartialEq, Eq, Structural)]
pub enum Usage {
    /// Pages of the page cache.
    PageCache,
    /// Memory of user space.
    UserMem,
}

/// What an allocator is asked for: so many contiguous small pages, the first of
/// them at a multiple of the alignment, for the given use.
#[derive(Debug, Clone, Copy, PartialEq, Eq, Structural)]
pub struct PageRequest {
    pub num_pages: usize,
    pub align: usize,
    pub usage: Usage,
}

/// `GlobalAllocator::alloc_pages` of `axalloc` hands out contiguous pages whose
/// first address is a multiple of the alignment. On the requests that are
/// admitted here the one reason to refuse is that there is no memory left, so
/// the error is not told apart. Which address comes back is not stated: it
/// depends on what was handed out before.
#[verifier::external_body]
pub(crate) fn alloc_pages(num_pages: usize, align: usize, usage: Usage) -> (r: Option<usize>)
    requires
        is_page_size(align),
        align == num_pages * PAGE_SIZE_4K,
    ensures
        r matches Some(addr) ==> addr as int % align as int == 0,
{
    let kind = match usage {
        Usage::PageCache => axalloc::UsageKind::PageCache,
        Usage::UserMem => axalloc::UsageKind::VirtMem,
    };
    axalloc::global_allocator().alloc_pages(num_pages, align, kind).ok()
}

/// The physical address behind an address of the linear mapping of all memory,
/// which starts at `phys_virt_offset`.
pub open spec fn phys_of(vaddr: usize, phys_virt_offset: usize) -> usize {
    vaddr.wrapping_sub(phys_virt_offset)
}

/// What an allocation of one frame amounts to: the physical address of the
/// frame, or `NoMemory` if the allocator had none.
pub fn frame_of(addr: Option<usize>, phys_virt_offset: usize) -> (r: Result<usize, AxError>)
    ensures
        r == (match addr {
            Some(vaddr) => Ok::<usize, AxError>(phys_of(vaddr, phys_virt_offset)),
            None => Err(AxError::NoMemory),
        }),
{
    match addr {
        Some(vaddr) => Ok(vaddr.wrapping_sub(phys_virt_offset)),
        None => Err(AxError::NoMemory),
    }
}

/// What the allocator is asked for where a frame of user memory is needed: the
/// small pages of the frame, aligned to its size.
pub fn frame_request(size: PageSize) -> (r: PageRequest)
    ensures
        r == (PageRequest {
            num_pages: size.bytes() / PAGE_SIZE_4K,
            align: size.bytes(),
            usage: Usage::UserMem,
        }),
{
    PageRequest {
        num_pages: size.bytes() / PAGE_SIZE_4K,
        align: size.bytes(),
        usage: Usage::UserMem,
    }
}

/// Allocates a frame for user memory, as [`frame_request`] asks for it. Its address
/// in the linear mapping is a multiple of its size.
pub fn alloc_frame(size: PageSize, phys_virt_offset: usize) -> (r: Result<usize, AxError>)
    ensures
        r matches Ok(paddr) ==> exists|vaddr: usize|
            vaddr as int % size.bytes() as int == 0 && paddr == #[trigger] phys_of(
                vaddr,
                phys_virt_offset,
            ),
        r matches Err(e) ==> e == AxError::NoMemory,
{
    let q: PageRequest = frame_request(size);
    let addr: Option<usize> = alloc_pages(q.num_pages, q.align, q.usage);
    frame_of(addr, phys_virt_offset)
}

} // verus!
