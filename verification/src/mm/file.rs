//! Files mapped into memory.

use vstd::prelude::*;
use vstd::pervasive::unreached;
use crate::addr::{
    is_whole_huge, whole_huge, PageSize, VirtAddrRange, PAGE_SIZE_2M, PAGE_SIZE_4K,
};
use crate::effect::{Reply, Request, Turn};
use crate::error::{AxError, PagingError};
use crate::flags::{FileFlags, MappingFlags, VmaFlags};
use crate::fs::cached_file::CachedFile;

verus! {

/// What a mapping of a file is.
#[derive(Debug, Clone, Copy, PartialEq, Eq, Structural)]
pub struct FileBackendInner {
    /// The number by which the mapping is told from others.
    pub id: u64,
    pub start: usize,
    pub cache: CachedFile,
    /// What the file was opened for.
    pub flags: FileFlags,
    /// The number of the page at the start of the mapping.
    pub offset_page: u32,
    /// The listener of the mapping at the cache, or zero.
    pub handle: usize,
    /// The number that all duplicates of the mapping share.
    pub futex_handle: u64,
    pub vma_flags: VmaFlags,
}

/// A mapping of a file.
#[derive(Debug, Clone, Copy, PartialEq, Eq, Structural)]
pub struct FileBackend {
    pub inner: FileBackendInner,
}

impl FileBackendInner {
    /// The number of the small page at an address of the mapping.
    pub open spec fn page_at(self, va: int) -> int {
        (va - self.start) / PAGE_SIZE_4K as int + self.offset_page
    }

    /// Whether a range lies in the mapping, and the pages up to its end and those
    /// of a huge page behind it have numbers.
    pub open spec fn has(self, range: VirtAddrRange) -> bool {
        &&& range.low(PageSize::Size2M)
        &&& self.start <= range.start
        &&& (range.end - self.start) + PAGE_SIZE_2M + self.offset_page * PAGE_SIZE_4K <= u32::MAX
            * PAGE_SIZE_4K
    }
}

/// The rights to a file that a mapping with the given rights needs.
pub open spec fn required(flags: MappingFlags) -> FileFlags {
    let read = flags.contains(MappingFlags { bits: MappingFlags::READ });
    let write = flags.contains(MappingFlags { bits: MappingFlags::WRITE });
    FileFlags {
        bits: (if read {
            FileFlags::READ
        } else {
            0u8
        }) | (if write {
            FileFlags::WRITE
        } else {
            0u8
        }),
    }
}

impl FileBackend {
    /// Whether the file has no device behind it.
    pub fn is_in_memory(&self) -> (r: bool)
        ensures
            r == self.inner.cache.in_memory,
    {
        self.inner.cache.in_memory()
    }

    /// Whether the file was opened for what a mapping with the given rights
    /// needs.
    pub fn check_flags(&self, flags: MappingFlags) -> (r: Result<(), AxError>)
        ensures
            r == (if self.inner.flags.contains(required(flags)) {
                Ok::<(), AxError>(())
            } else {
                Err(AxError::PermissionDenied)
            }),
    {
        let mut required_flags: FileFlags = FileFlags::empty();
        proof {
            assert(0u8 | 0u8 == 0u8 && 0u8 | 1u8 == 1u8 && 1u8 | 0u8 == 1u8 && 0u8 | 2u8 == 2u8)
                by (bit_vector);
        }
        if flags.contains(MappingFlags::of(MappingFlags::READ)) {
            required_flags = required_flags.union(FileFlags::of(FileFlags::READ));
        }
        if flags.contains(MappingFlags::of(MappingFlags::WRITE)) {
            required_flags = required_flags.union(FileFlags::of(FileFlags::WRITE));
        }
        if !self.inner.flags.contains(required_flags) {
            return Err(AxError::PermissionDenied);
        }
        Ok(())
    }

    /// The number that all duplicates of the mapping share.
    pub fn futex_handle(&self) -> (r: u64)
        ensures
            r == self.inner.futex_handle,
    {
        self.inner.futex_handle
    }

    /// Whether this is the mapping `inner`.
    pub fn ptr_eq_inner(&self, inner: &FileBackendInner) -> (r: bool)
        ensures
            r == (self.inner.id == inner.id),
    {
        self.inner.id == inner.id
    }
}

/// Where an unmapping stands.
#[derive(Debug, Clone, Copy, PartialEq, Eq, Structural)]
pub enum FileUnmapState {
    Begin,
    AwaitEntry,
    AwaitHuge,
    AwaitUnmap,
    AwaitSplit,
    Over,
}

/// The unmapping of a range of a mapped file. A huge page that is only partly in
/// the range is split first.
#[derive(Debug, Clone, Copy, PartialEq, Eq, Structural)]
pub struct FileUnmap {
    pub range: VirtAddrRange,
    pub va: usize,
    /// The size of the page that is being unmapped.
    pub step: PageSize,
    pub state: FileUnmapState,
}

impl FileUnmap {
    pub open spec fn wf(self) -> bool {
        &&& self.range.low(PageSize::Size2M)
        &&& match self.state {
            FileUnmapState::Begin => self.va == self.range.start,
            FileUnmapState::Over => true,
            FileUnmapState::AwaitHuge | FileUnmapState::AwaitUnmap => self.va < self.range.end
                && !(self.step is Size1G),
            _ => self.va < self.range.end,
        }
    }

    /// Whether the reply can be one to the last request: a page of the mapping is
    /// a small or a huge one.
    pub open spec fn awaits(self, reply: Reply) -> bool {
        match self.state {
            FileUnmapState::Begin => reply is Start,
            FileUnmapState::AwaitEntry | FileUnmapState::AwaitHuge => match reply {
                Reply::Entry { size, .. } => !(size is Size1G),
                _ => reply is Fault,
            },
            FileUnmapState::AwaitUnmap | FileUnmapState::AwaitSplit => reply is Done || reply is Fault,
            FileUnmapState::Over => false,
        }
    }

    pub open spec fn asking(self, state: FileUnmapState, request: Request) -> (FileUnmap, Turn<()>) {
        (FileUnmap { state, ..self }, Turn::Ask(request))
    }

    pub open spec fn ending(self, result: Result<(), AxError>) -> (FileUnmap, Turn<()>) {
        (FileUnmap { state: FileUnmapState::Over, ..self }, Turn::Finished(result))
    }

    /// The unmapping turns to the address `va`.
    pub open spec fn entering(self, va: int) -> (FileUnmap, Turn<()>) {
        let t = FileUnmap { va: va as usize, ..self };
        if va < self.range.end {
            t.asking(FileUnmapState::AwaitEntry, Request::Query { va: va as usize })
        } else {
            t.ending(Ok(()))
        }
    }

    /// What the step does.
    pub open spec fn after(self, reply: Reply) -> (FileUnmap, Turn<()>) {
        match (self.state, reply) {
            (FileUnmapState::Begin, _) => if self.range.aligned_to(PageSize::Size4K) {
                self.entering(self.va as int)
            } else {
                self.ending(Err(AxError::InvalidInput))
            },
            (FileUnmapState::AwaitEntry, Reply::Entry { paddr: _, flags: _, size }) => {
                let t = FileUnmap { step: size, ..self };
                if size is Size2M {
                    if whole_huge(self.va, self.range.end) {
                        t.asking(FileUnmapState::AwaitHuge, Request::Query { va: self.va })
                    } else {
                        t.asking(FileUnmapState::AwaitSplit, Request::SplitHuge { va: self.va })
                    }
                } else {
                    t.asking(FileUnmapState::AwaitUnmap, Request::UnmapPage { va: self.va })
                }
            },
            (FileUnmapState::AwaitEntry, Reply::Fault(PagingError::NotMapped)) => self.entering(
                self.va + PAGE_SIZE_4K,
            ),
            (FileUnmapState::AwaitHuge, Reply::Entry { .. }) => self.asking(
                FileUnmapState::AwaitUnmap,
                Request::UnmapPage { va: self.va },
            ),
            (FileUnmapState::AwaitUnmap, Reply::Done) => self.entering(self.va + self.step.bytes()),
            (FileUnmapState::AwaitSplit, Reply::Done) => self.entering(self.va as int),
            (_, Reply::Fault(e)) => self.ending(Err(e.into_error())),
            _ => arbitrary(),
        }
    }

    /// Turns to the address `va`.
    fn enter(&mut self, va: usize) -> (r: Turn<()>)
        requires
            old(self).range.low(PageSize::Size2M),
        ensures
            final(self).wf(),
            (*final(self), r) == old(self).entering(va as int),
    {
        self.va = va;
        if va < self.range.end {
            self.state = FileUnmapState::AwaitEntry;
            Turn::Ask(Request::Query { va })
        } else {
            self.state = FileUnmapState::Over;
            Turn::Finished(Ok(()))
        }
    }

    /// Goes on with the unmapping.
    pub fn step(&mut self, reply: Reply) -> (r: Turn<()>)
        requires
            old(self).wf(),
            old(self).awaits(reply),
        ensures
            final(self).wf(),
            (*final(self), r) == old(self).after(reply),
    {
        match (self.state, reply) {
            (FileUnmapState::Begin, _) => {
                if self.range.is_aligned_to(PageSize::Size4K) {
                    self.enter(self.va)
                } else {
                    self.state = FileUnmapState::Over;
                    Turn::Finished(Err(AxError::InvalidInput))
                }
            },
            (FileUnmapState::AwaitEntry, Reply::Entry { paddr: _, flags: _, size }) => {
                self.step = size;
                if size == PageSize::Size2M {
                    if is_whole_huge(self.va, self.range.end) {
                        self.state = FileUnmapState::AwaitHuge;
                        Turn::Ask(Request::Query { va: self.va })
                    } else {
                        self.state = FileUnmapState::AwaitSplit;
                        Turn::Ask(Request::SplitHuge { va: self.va })
                    }
                } else {
                    self.state = FileUnmapState::AwaitUnmap;
                    Turn::Ask(Request::UnmapPage { va: self.va })
                }
            },
            (FileUnmapState::AwaitEntry, Reply::Fault(PagingError::NotMapped)) => {
                let va: usize = self.va + PAGE_SIZE_4K;
                self.enter(va)
            },
            (FileUnmapState::AwaitHuge, Reply::Entry { .. }) => {
                self.state = FileUnmapState::AwaitUnmap;
                Turn::Ask(Request::UnmapPage { va: self.va })
            },
            (FileUnmapState::AwaitUnmap, Reply::Done) => {
                let va: usize = self.va + self.step.bytes();
                self.enter(va)
            },
            (FileUnmapState::AwaitSplit, Reply::Done) => self.enter(self.va),
            (_, Reply::Fault(e)) => {
                self.state = FileUnmapState::Over;
                Turn::Finished(Err(e.into_error()))
            },
            _ => unreached(),
        }
    }
}

impl FileBackend {
    /// Unmaps a range.
    pub fn unmap(&self, range: VirtAddrRange) -> (r: FileUnmap)
        requires
            range.low(PageSize::Size2M),
        ensures
            r == (FileUnmap {
                range,
                va: range.start,
                step: PageSize::Size4K,
                state: FileUnmapState::Begin,
            }),
            r.wf(),
    {
        FileUnmap {
            range,
            va: range.start,
            step: PageSize::Size4K,
            state: FileUnmapState::Begin,
        }
    }

    /// What a mapping with the given rights needs is what a file must have been
    /// opened for.
    pub fn map(&self, flags: MappingFlags) -> (r: Result<(), AxError>)
        ensures
            r == (if self.inner.flags.contains(required(flags)) {
                Ok::<(), AxError>(())
            } else {
                Err(AxError::PermissionDenied)
            }),
    {
        self.check_flags(flags)
    }

    /// New rights need what the mapping would have needed with them.
    pub fn on_protect(&self, new_flags: MappingFlags) -> (r: Result<(), AxError>)
        ensures
            r == (if self.inner.flags.contains(required(new_flags)) {
                Ok::<(), AxError>(())
            } else {
                Err(AxError::PermissionDenied)
            }),
    {
        self.check_flags(new_flags)
    }
}

} // verus!
