//! Files that are read and written through the page cache.

use vstd::prelude::*;
use crate::fs::cache::CachedFileShared;
use crate::fs::location::Location;
use crate::fs::page::PageCache;
use crate::fs::recency::{lookup, placed};

verus! {

/// A file whose pages are cached. The cache itself is shared by all such values
/// with the same number.
#[derive(Debug, Clone, Copy, PartialEq, Eq, Structural)]
pub struct CachedFile {
    /// The place of the file.
    pub inner: Location,
    /// The number of the cache.
    pub shared: u64,
    /// Whether the file has no device behind it.
    pub in_memory: bool,
}

impl CachedFile {
    /// Whether two files share their cache.
    pub fn ptr_eq(&self, other: &CachedFile) -> (r: bool)
        ensures
            r == (self.shared == other.shared),
    {
        self.shared == other.shared
    }

    /// Whether the file has no device behind it.
    pub fn in_memory(&self) -> (r: bool)
        ensures
            r == self.in_memory,
    {
        self.in_memory
    }

    /// The place of the file.
    pub fn location(&self) -> (r: &Location)
        ensures
            *r == self.inner,
    {
        &self.inner
    }

    /// Uses the page that is cached for `pn`, if there is one.
    pub fn with_page<'a>(&self, shared: &'a mut CachedFileShared, pn: u32) -> (r: Option<
        &'a mut PageCache,
    >)
        ensures
            match r {
                Some(page) => {
                    &&& lookup(old(shared)@.pages, pn) == Some(*page)
                    &&& final(shared)@ == old(shared)@.with_pages(
                        placed(old(shared)@.pages, pn, *final(page)),
                    )
                },
                None => {
                    &&& lookup(old(shared)@.pages, pn) is None
                    &&& final(shared)@ == old(shared)@
                },
            },
    {
        shared.get_mut(pn)
    }
}

} // verus!
