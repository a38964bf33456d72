//! How operations talk to the world.
//!
//! An operation that needs the world more than once is a value with a `step`
//! method. Each step takes the reply to the last request, appends to a list the
//! effects that are to be carried out now, in order, and returns either the
//! next request or the result of the operation. The first reply is
//! [`Reply::Start`].

use vstd::prelude::*;
use crate::addr::PageSize;
use crate::error::{AxError, PagingError};
use crate::flags::MappingFlags;
use crate::fs::page::{PageCache, PageOperation};

verus! {

/// Something to be carried out that cannot fail.
#[derive(Debug, Clone, Copy, PartialEq, Eq, Structural)]
pub enum Effect {
    /// Tell a listener of the page cache about a page.
    Notify { listener: usize, pn: u32, page: PageCache, op: PageOperation },
    /// Give the memory of a cached page back.
    FreePage(PageCache),
    /// Give a frame of user memory back.
    FreeFrame { paddr: usize, size: PageSize },
    /// Copy memory.
    Copy { src: usize, dst: usize, len: usize },
    /// Fill memory with zeros.
    Zero { paddr: usize, len: usize },
}

/// Something to be carried out that is answered with a [`Reply`].
#[derive(Debug, Clone, Copy, PartialEq, Eq, Structural)]
pub enum Request {
    /// The length of the file: `Len` or `Failed`.
    FileLen,
    /// Set the length of the file: `Done` or `Failed`.
    FileSetLen(u64),
    /// Read from the file into memory: `Done` or `Failed`.
    FileRead { paddr: usize, len: usize, offset: u64 },
    /// Write memory to the file: `Done` or `Failed`.
    FileWrite { paddr: usize, len: usize, offset: u64 },
    /// Bring the file to its device: `Done` or `Failed`.
    FileSync { data_only: bool },
    /// Allocate a page for the page cache: `Addr` or `Failed`.
    AllocPage { bytes: usize },
    /// Hand bytes of memory to the reader: `Done` or `Failed`.
    CopyOut { paddr: usize, len: usize },
    /// Take bytes from the writer into memory: `Done` or `Failed`.
    CopyIn { paddr: usize, len: usize },
    /// Nothing: `Done`.
    Relax,
    /// Look an address up in the page table: `Entry` or `Fault`.
    Query { va: usize },
    /// Map a page: `Done` or `Fault`.
    MapPage { va: usize, paddr: usize, size: PageSize, flags: MappingFlags },
    /// Map a page in the page table of the copy: `Done` or `Fault`.
    MapInCopy { va: usize, paddr: usize, size: PageSize, flags: MappingFlags },
    /// Unmap a page: `Done` or `Fault`.
    UnmapPage { va: usize },
    /// Change the rights of a mapped page: `Done` or `Fault`.
    Protect { va: usize, flags: MappingFlags },
    /// Change the frame and the rights of a mapped page: `Done` or `Fault`.
    Remap { va: usize, paddr: usize, flags: MappingFlags },
    /// Replace the small mappings of a huge page by one: `Done` or `Fault`.
    RemapHuge { va: usize, paddr: usize, flags: MappingFlags },
    /// Replace the huge mapping around an address by small ones: `Done` or
    /// `Fault`.
    SplitHuge { va: usize },
    /// Map a region to consecutive frames with small pages: `Done` or `Fault`.
    MapRegion { va: usize, paddr: usize, len: usize, flags: MappingFlags },
    /// Unmap a region: `Done` or `Fault`.
    UnmapRegion { va: usize, len: usize },
    /// Allocate a frame of user memory: `Addr` or `Failed`.
    AllocFrame { zeroed: bool, size: PageSize },
}

/// The answer to a [`Request`].
#[derive(Debug, Clone, Copy, PartialEq, Eq, Structural)]
pub enum Reply {
    /// There was no request yet.
    Start,
    Done,
    Len(u64),
    Addr(usize),
    Entry { paddr: usize, flags: MappingFlags, size: PageSize },
    Failed(AxError),
    Fault(PagingError),
}

/// What a step of an operation ends with.
#[derive(Debug)]
pub enum Turn<T> {
    /// The operation goes on when this is answered.
    Ask(Request),
    /// The operation is over.
    Finished(Result<T, AxError>),
}

} // verus!
