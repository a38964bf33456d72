//! How an open file is accessed.

use vstd::prelude::*;
use crate::fs::cache::MAX_OFFSET;
use crate::fs::cached_file::CachedFile;
use crate::fs::caches::PageCaches;
use crate::fs::location::Location;
use crate::fs::resize::{Resize, ResizeState};
use crate::fs::sync::CacheSync;
use crate::fs::transfer::{Transfer, TransferKind};

verus! {

/// How an open file is accessed: through the page cache or directly.
#[derive(Debug, Clone, Copy, PartialEq, Eq, Structural)]
pub enum FileBackend {
    Cached(CachedFile),
    Direct(Location),
}

/// A read or a write of an open file.
#[derive(Debug, Clone, Copy)]
pub enum FileTransfer {
    /// It goes through the page cache.
    Cached(Transfer),
    /// It goes to the file itself, from this position on.
    Direct(DirectTransfer),
    /// It goes to the end of the file itself.
    DirectAppend(Location),
}

/// A read or a write that goes to the file itself, piece by piece.
#[derive(Debug, Clone, Copy, PartialEq, Eq, Structural)]
pub struct DirectTransfer {
    pub loc: Location,
    /// The position of the next piece.
    pub offset: u64,
}

impl DirectTransfer {
    /// Takes note of a piece of `n` bytes.
    pub fn moved(&mut self, n: usize)
        requires
            old(self).offset + n <= u64::MAX,
        ensures
            *final(self) == (DirectTransfer {
                offset: (old(self).offset + n) as u64,
                ..*old(self)
            }),
    {
        self.offset = self.offset + n as u64;
    }
}

/// A sync of an open file.
#[derive(Debug, Clone, Copy)]
pub enum FileSync {
    Cached(CacheSync),
    /// The file itself is synced.
    Direct { loc: Location, data_only: bool },
}

/// A change of the length of an open file.
#[derive(Debug, Clone, Copy)]
pub enum FileResize {
    Cached(Resize),
    /// The length of the file itself is set.
    Direct { loc: Location, len: u64 },
}

impl FileBackend {
    /// The place of the file.
    pub open spec fn place(self) -> Location {
        match self {
            FileBackend::Cached(cached) => cached.inner,
            FileBackend::Direct(loc) => loc,
        }
    }

    /// Direct access.
    pub fn new_direct(location: Location) -> (r: FileBackend)
        ensures
            r == FileBackend::Direct(location),
    {
        FileBackend::Direct(location)
    }

    /// Access through the page cache: the one that is noted at the place, if it
    /// is still held, else a new one.
    pub fn new_cached(caches: &mut PageCaches, location: Location, noted: Option<u64>) -> (r:
        FileBackend)
        requires
            old(caches)@.wf(),
            old(caches)@.can_open(noted),
        ensures
            final(caches)@.wf(),
            final(caches)@ == old(caches)@.opened(location, noted),
            r == FileBackend::Cached(
                CachedFile {
                    inner: location,
                    shared: old(caches)@.number(noted),
                    in_memory: location.in_memory,
                },
            ),
    {
        FileBackend::Cached(CachedFile::get_or_create(caches, location, noted))
    }

    /// The place of the file.
    pub fn location(&self) -> (r: &Location)
        ensures
            *r == self.place(),
    {
        match self {
            FileBackend::Cached(cached) => cached.location(),
            FileBackend::Direct(loc) => loc,
        }
    }

    /// Reads into a buffer of `remaining` bytes from `offset`.
    pub fn read_at(&self, remaining: usize, offset: u64) -> (r: FileTransfer)
        requires
            offset + remaining <= u64::MAX,
        ensures
            r == (match *self {
                FileBackend::Cached(cached) => FileTransfer::Cached(
                    cached.transfer_of(TransferKind::Read, offset, remaining),
                ),
                FileBackend::Direct(loc) => FileTransfer::Direct(DirectTransfer { loc, offset }),
            }),
    {
        match self {
            FileBackend::Cached(cached) => FileTransfer::Cached(cached.read_at(remaining, offset)),
            FileBackend::Direct(loc) => FileTransfer::Direct(DirectTransfer { loc: *loc, offset }),
        }
    }

    /// Writes a buffer of `remaining` bytes at `offset`.
    pub fn write_at(&self, remaining: usize, offset: u64) -> (r: FileTransfer)
        requires
            self is Cached ==> offset + remaining <= MAX_OFFSET,
        ensures
            r == (match *self {
                FileBackend::Cached(cached) => FileTransfer::Cached(
                    cached.transfer_of(TransferKind::Write, offset, remaining),
                ),
                FileBackend::Direct(loc) => FileTransfer::Direct(DirectTransfer { loc, offset }),
            }),
    {
        match self {
            FileBackend::Cached(cached) => FileTransfer::Cached(cached.write_at(remaining, offset)),
            FileBackend::Direct(loc) => FileTransfer::Direct(DirectTransfer { loc: *loc, offset }),
        }
    }

    /// Writes a buffer of `remaining` bytes behind the end.
    pub fn append(&self, remaining: usize) -> (r: FileTransfer)
        ensures
            r == (match *self {
                FileBackend::Cached(cached) => FileTransfer::Cached(
                    cached.transfer_of(TransferKind::Append, 0, remaining),
                ),
                FileBackend::Direct(loc) => FileTransfer::DirectAppend(loc),
            }),
    {
        match self {
            FileBackend::Cached(cached) => FileTransfer::Cached(cached.append(remaining)),
            FileBackend::Direct(loc) => FileTransfer::DirectAppend(*loc),
        }
    }

    /// Brings the file in step with what was written.
    pub fn sync(&self, data_only: bool) -> (r: FileSync)
        ensures
            r == (match *self {
                FileBackend::Cached(cached) => FileSync::Cached(cached.sync_of(data_only)),
                FileBackend::Direct(loc) => FileSync::Direct { loc, data_only },
            }),
    {
        match self {
            FileBackend::Cached(cached) => FileSync::Cached(cached.sync(data_only)),
            FileBackend::Direct(loc) => FileSync::Direct { loc: *loc, data_only },
        }
    }

    /// Sets the length of the file.
    pub fn set_len(&self, len: u64) -> (r: FileResize)
        ensures
            r == (match *self {
                FileBackend::Cached(cached) => FileResize::Cached(
                    Resize { file: cached, len, old_len: 0, state: ResizeState::Begin },
                ),
                FileBackend::Direct(loc) => FileResize::Direct { loc, len },
            }),
    {
        match self {
            FileBackend::Cached(cached) => FileResize::Cached(cached.set_len(len)),
            FileBackend::Direct(loc) => FileResize::Direct { loc: *loc, len },
        }
    }
}

} // verus!
