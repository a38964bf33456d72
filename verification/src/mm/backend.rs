//! What stands behind a mapped area.

use vstd::prelude::*;
use crate::addr::{PageSize, PAGE_SIZE_4K};
use crate::effect::Request;
use crate::error::AxError;
use crate::flags::{FileFlags, MappingFlags, VmaFlags};
use crate::fs::backend::FileBackend as OpenFileBackend;
use crate::fs::cached_file::CachedFile;
use crate::fs::page::PageOperation;
use crate::mm::cow::{BackingFile, CowBackend};
use crate::mm::file::{FileBackend, FileBackendInner};
use crate::mm::linear::LinearBackend;
use crate::mm::policy::{Policies, ShmemThpPolicy, ThpPolicy};
use crate::mm::shared::{SharedBackend, SharedBackendInner};

verus! {

/// What stands behind a mapped area.
#[derive(Debug, Clone, Copy, PartialEq, Eq, Structural)]
pub enum Backend {
    Linear(LinearBackend),
    Cow(CowBackend),
    Shared(SharedBackend),
    File(FileBackend),
}

/// The flag that forbids huge pages.
#[verifier::allow_in_spec]
fn nohuge() -> (r: VmaFlags)
    returns
        (VmaFlags { bits: VmaFlags::VM_NOHUGEPAGE }),
{
    VmaFlags::of(VmaFlags::VM_NOHUGEPAGE)
}

/// The flag that asks for huge pages.
#[verifier::allow_in_spec]
fn huge() -> (r: VmaFlags)
    returns
        (VmaFlags { bits: VmaFlags::VM_HUGEPAGE }),
{
    VmaFlags::of(VmaFlags::VM_HUGEPAGE)
}

/// What every kind of backend answers.
pub trait BackendOps: Sized {
    /// The page size of the backend.
    spec fn unit(self) -> PageSize;

    /// The backend after a flag was set.
    spec fn with_flag(self, policies: Policies, flag: VmaFlags) -> Self;

    /// The backend after a flag was cleared.
    spec fn without_flag(self, policies: Policies, flag: VmaFlags) -> Self;

    /// Whether a flag is set.
    spec fn has_flag(self, flag: VmaFlags) -> bool;

    /// Whether huge pages are wanted.
    spec fn wants_huge(self, policies: Policies) -> bool;

    /// The page size of the backend.
    fn page_size(&self) -> (r: PageSize)
        ensures
            r == self.unit(),
    ;

    /// Sets a flag of the area.
    fn set_vma_flag(&mut self, policies: &Policies, flag: VmaFlags)
        ensures
            *final(self) == old(self).with_flag(*policies, flag),
    ;

    /// Clears a flag of the area.
    fn clear_vma_flag(&mut self, policies: &Policies, flag: VmaFlags)
        ensures
            *final(self) == old(self).without_flag(*policies, flag),
    ;

    /// Whether a flag of the area is set.
    fn contain_vma_flag(&self, flag: VmaFlags) -> (r: bool)
        ensures
            r == self.has_flag(flag),
    ;

    /// Whether the area is to use huge pages.
    fn transparent_hugepage_enabled(&self, policies: &Policies) -> (r: bool)
        ensures
            r == self.wants_huge(*policies),
    ;
}

impl BackendOps for LinearBackend {
    open spec fn unit(self) -> PageSize {
        PageSize::Size4K
    }

    open spec fn with_flag(self, policies: Policies, flag: VmaFlags) -> Self {
        self
    }

    open spec fn without_flag(self, policies: Policies, flag: VmaFlags) -> Self {
        self
    }

    open spec fn has_flag(self, flag: VmaFlags) -> bool {
        false
    }

    open spec fn wants_huge(self, policies: Policies) -> bool {
        false
    }

    fn page_size(&self) -> (r: PageSize) {
        PageSize::Size4K
    }

    fn set_vma_flag(&mut self, policies: &Policies, flag: VmaFlags) {
    }

    fn clear_vma_flag(&mut self, policies: &Policies, flag: VmaFlags) {
    }

    fn contain_vma_flag(&self, flag: VmaFlags) -> (r: bool) {
        false
    }

    fn transparent_hugepage_enabled(&self, policies: &Policies) -> (r: bool) {
        false
    }
}

impl BackendOps for CowBackend {
    open spec fn unit(self) -> PageSize {
        self.size
    }

    open spec fn with_flag(self, policies: Policies, flag: VmaFlags) -> Self {
        CowBackend { vma_flags: self.vma_flags.union(flag), ..self }
    }

    open spec fn without_flag(self, policies: Policies, flag: VmaFlags) -> Self {
        CowBackend { vma_flags: self.vma_flags.difference(flag), ..self }
    }

    open spec fn has_flag(self, flag: VmaFlags) -> bool {
        self.vma_flags.contains(flag)
    }

    open spec fn wants_huge(self, policies: Policies) -> bool {
        !self.vma_flags.contains(VmaFlags { bits: VmaFlags::VM_NOHUGEPAGE }) && match policies.thp {
            ThpPolicy::Always => true,
            ThpPolicy::Madvise => self.vma_flags.contains(VmaFlags { bits: VmaFlags::VM_HUGEPAGE }),
            ThpPolicy::Never => false,
        }
    }

    fn page_size(&self) -> (r: PageSize) {
        self.size
    }

    fn set_vma_flag(&mut self, policies: &Policies, flag: VmaFlags) {
        self.vma_flags = self.vma_flags.union(flag);
    }

    fn clear_vma_flag(&mut self, policies: &Policies, flag: VmaFlags) {
        self.vma_flags = self.vma_flags.difference(flag);
    }

    fn contain_vma_flag(&self, flag: VmaFlags) -> (r: bool) {
        self.vma_flags.contains(flag)
    }

    fn transparent_hugepage_enabled(&self, policies: &Policies) -> (r: bool) {
        if self.vma_flags.contains(nohuge()) {
            return false;
        }
        match policies.thp {
            ThpPolicy::Always => true,
            ThpPolicy::Madvise => self.vma_flags.contains(huge()),
            ThpPolicy::Never => false,
        }
    }
}

impl BackendOps for SharedBackend {
    open spec fn unit(self) -> PageSize {
        PageSize::Size4K
    }

    open spec fn with_flag(self, policies: Policies, flag: VmaFlags) -> Self {
        SharedBackend {
            inner: SharedBackendInner {
                vma_flags: self.inner.vma_flags.union(flag),
                ..self.inner
            },
        }
    }

    open spec fn without_flag(self, policies: Policies, flag: VmaFlags) -> Self {
        SharedBackend {
            inner: SharedBackendInner {
                vma_flags: self.inner.vma_flags.difference(flag),
                ..self.inner
            },
        }
    }

    open spec fn has_flag(self, flag: VmaFlags) -> bool {
        self.inner.vma_flags.contains(flag)
    }

    open spec fn wants_huge(self, policies: Policies) -> bool {
        let v = self.inner.vma_flags;
        !v.contains(VmaFlags { bits: VmaFlags::VM_NOHUGEPAGE }) && match policies.shmem {
            ShmemThpPolicy::Always => true,
            ShmemThpPolicy::Advise => v.contains(VmaFlags { bits: VmaFlags::VM_HUGEPAGE }),
            ShmemThpPolicy::Never => false,
        }
    }

    fn page_size(&self) -> (r: PageSize) {
        PageSize::Size4K
    }

    fn set_vma_flag(&mut self, policies: &Policies, flag: VmaFlags) {
        self.inner.vma_flags = self.inner.vma_flags.union(flag);
    }

    fn clear_vma_flag(&mut self, policies: &Policies, flag: VmaFlags) {
        self.inner.vma_flags = self.inner.vma_flags.difference(flag);
    }

    fn contain_vma_flag(&self, flag: VmaFlags) -> (r: bool) {
        self.inner.vma_flags.contains(flag)
    }

    fn transparent_hugepage_enabled(&self, policies: &Policies) -> (r: bool) {
        let v: VmaFlags = self.inner.vma_flags;
        if v.contains(nohuge()) {
            return false;
        }
        match policies.shmem {
            ShmemThpPolicy::Always => true,
            ShmemThpPolicy::Advise => v.contains(huge()),
            ShmemThpPolicy::Never => false,
        }
    }
}

impl FileBackendInner {
    /// The mapping after a flag was set. Hints count only while the policy is to
    /// follow them.
    pub open spec fn flagged(self, policies: Policies, flag: VmaFlags) -> FileBackendInner {
        if policies.shmem is Advise {
            FileBackendInner { vma_flags: self.vma_flags.union(flag), ..self }
        } else {
            self
        }
    }

    /// The mapping after a flag was cleared, which counts only under the policy to
    /// use huge pages always.
    pub open spec fn unflagged(self, policies: Policies, flag: VmaFlags) -> FileBackendInner {
        if policies.shmem is Always {
            FileBackendInner { vma_flags: self.vma_flags.difference(flag), ..self }
        } else {
            self
        }
    }

    /// Whether huge pages are wanted: only files without a device can have them,
    /// unless they are forbidden, and only where they were asked for or the policy
    /// is to use them always.
    pub open spec fn wants_huge(self, policies: Policies) -> bool {
        &&& self.cache.in_memory
        &&& !self.vma_flags.contains(VmaFlags { bits: VmaFlags::VM_NOHUGEPAGE })
        &&& self.vma_flags.contains(VmaFlags { bits: VmaFlags::VM_HUGEPAGE })
            || policies.shmem is Always
    }

    /// Whether the mapping is to use huge pages.
    pub fn transparent_hugepage_enabled(&self, policies: &Policies) -> (r: bool)
        ensures
            r == self.wants_huge(*policies),
    {
        if !self.cache.in_memory() || self.vma_flags.contains(nohuge()) {
            return false;
        }
        self.vma_flags.contains(huge()) || policies.shmem == ShmemThpPolicy::Always
    }

    /// Sets a flag of the mapping, while the policy is to follow hints.
    pub fn set_vma_flag(&mut self, policies: &Policies, flag: VmaFlags)
        ensures
            *final(self) == old(self).flagged(*policies, flag),
    {
        if policies.shmem == ShmemThpPolicy::Advise {
            self.vma_flags = self.vma_flags.union(flag);
        }
    }

    /// Clears a flag of the mapping, while the policy is to use huge pages always.
    pub fn clear_vma_flag(&mut self, policies: &Policies, flag: VmaFlags)
        ensures
            *final(self) == old(self).unflagged(*policies, flag),
    {
        if policies.shmem == ShmemThpPolicy::Always {
            self.vma_flags = self.vma_flags.difference(flag);
        }
    }

    /// Where a page of the file stands in the mapping.
    pub open spec fn place(self, pn: u32) -> Option<int> {
        if pn < self.offset_page {
            None
        } else {
            Some(self.start + (pn - self.offset_page) * PAGE_SIZE_4K)
        }
    }

    /// The address at which a page of the file stands in the mapping, if it is one.
    pub fn address(&self, pn: u32) -> (r: Option<usize>)
        ensures
            r == (match self.place(pn) {
                Some(va) => if va <= usize::MAX {
                    Some(va as usize)
                } else {
                    None
                },
                None => None,
            }),
    {
        match pn.checked_sub(self.offset_page) {
            None => None,
            Some(n) => address_behind(self.start, n),
        }
    }

    /// What is to be done when a page of the file is taken from the cache or
    /// split there, given what stands behind the area where the page may be
    /// mapped: nothing, if that is not this mapping.
    pub fn on_evict(&self, pn: u32, area: Option<Backend>, op: PageOperation) -> (r: Option<Request>)
        requires
            self.place(pn) matches Some(va) ==> va <= usize::MAX,
        ensures
            r == (match (self.place(pn), area) {
                (Some(va), Some(Backend::File(file))) => if file.inner.id == self.id {
                    Some(eviction_request(va as usize, op))
                } else {
                    None
                },
                _ => None,
            }),
    {
        match pn.checked_sub(self.offset_page) {
            None => None,
            Some(n) => {
                let vaddr: usize = self.start + n as usize * PAGE_SIZE_4K;
                if self.matches_backend(area) {
                    Some(evict(vaddr, op))
                } else {
                    None
                }
            },
        }
    }

    /// Whether an area is one of this mapping.
    fn matches_backend(&self, area: Option<Backend>) -> (r: bool)
        ensures
            r == (area matches Some(Backend::File(file)) && file.inner.id == self.id),
    {
        match area {
            Some(Backend::File(file)) => file.ptr_eq_inner(self),
            _ => false,
        }
    }
}

/// The address a number of small pages behind another, if it is one.
fn address_behind(start: usize, pages: u32) -> (r: Option<usize>)
    ensures
        r == (if start + pages * PAGE_SIZE_4K <= usize::MAX {
            Some((start + pages * PAGE_SIZE_4K) as usize)
        } else {
            None
        }),
{
    match (pages as usize).checked_mul(PAGE_SIZE_4K) {
        Some(offset) => start.checked_add(offset),
        None => None,
    }
}

impl SharedBackendInner {
    /// Where a page of the file stands in the mapping.
    pub open spec fn place(self, pn: u32) -> int {
        self.start + pn * PAGE_SIZE_4K
    }

    /// The address at which a page of the file stands in the mapping, if it is one.
    pub fn address(&self, pn: u32) -> (r: Option<usize>)
        ensures
            r == (if self.place(pn) <= usize::MAX {
                Some(self.place(pn) as usize)
            } else {
                None
            }),
    {
        address_behind(self.start, pn)
    }

    /// What is to be done when a page of the file is taken from the cache or
    /// split there, given what stands behind the area where the page may be
    /// mapped: nothing, if that is not this mapping.
    pub fn on_evict(&self, pn: u32, area: Option<Backend>, op: PageOperation) -> (r: Option<Request>)
        requires
            self.place(pn) <= usize::MAX,
        ensures
            r == (match area {
                Some(Backend::Shared(shared)) => if shared.inner.id == self.id {
                    Some(eviction_request(self.place(pn) as usize, op))
                } else {
                    None
                },
                _ => None,
            }),
    {
        let vaddr: usize = self.start + pn as usize * PAGE_SIZE_4K;
        if self.matches_backend(area) {
            Some(evict(vaddr, op))
        } else {
            None
        }
    }

    /// Whether an area is one of this mapping.
    fn matches_backend(&self, area: Option<Backend>) -> (r: bool)
        ensures
            r == (area matches Some(Backend::Shared(shared)) && shared.inner.id == self.id),
    {
        match area {
            Some(Backend::Shared(shared)) => shared.ptr_eq_inner(self),
            _ => false,
        }
    }
}

/// The request that carries a page operation out at an address.
pub open spec fn eviction_request(va: usize, op: PageOperation) -> Request {
    match op {
        PageOperation::Unmap => Request::UnmapPage { va },
        PageOperation::Demote => Request::SplitHuge { va },
    }
}

/// The request that carries a page operation out at an address.
fn evict(va: usize, op: PageOperation) -> (r: Request)
    ensures
        r == eviction_request(va, op),
{
    match op {
        PageOperation::Unmap => Request::UnmapPage { va },
        PageOperation::Demote => Request::SplitHuge { va },
    }
}

impl BackendOps for FileBackend {
    open spec fn unit(self) -> PageSize {
        PageSize::Size4K
    }

    open spec fn with_flag(self, policies: Policies, flag: VmaFlags) -> Self {
        FileBackend { inner: self.inner.flagged(policies, flag) }
    }

    open spec fn without_flag(self, policies: Policies, flag: VmaFlags) -> Self {
        FileBackend { inner: self.inner.unflagged(policies, flag) }
    }

    open spec fn has_flag(self, flag: VmaFlags) -> bool {
        self.inner.vma_flags.contains(flag)
    }

    open spec fn wants_huge(self, policies: Policies) -> bool {
        self.inner.wants_huge(policies)
    }

    fn page_size(&self) -> (r: PageSize) {
        PageSize::Size4K
    }

    fn set_vma_flag(&mut self, policies: &Policies, flag: VmaFlags) {
        self.inner.set_vma_flag(policies, flag);
    }

    fn clear_vma_flag(&mut self, policies: &Policies, flag: VmaFlags) {
        self.inner.clear_vma_flag(policies, flag);
    }

    fn contain_vma_flag(&self, flag: VmaFlags) -> (r: bool) {
        self.inner.vma_flags.contains(flag)
    }

    fn transparent_hugepage_enabled(&self, policies: &Policies) -> (r: bool) {
        self.inner.transparent_hugepage_enabled(policies)
    }
}

impl BackendOps for Backend {
    open spec fn unit(self) -> PageSize {
        match self {
            Backend::Linear(b) => b.unit(),
            Backend::Cow(b) => b.unit(),
            Backend::Shared(b) => b.unit(),
            Backend::File(b) => b.unit(),
        }
    }

    open spec fn with_flag(self, policies: Policies, flag: VmaFlags) -> Self {
        match self {
            Backend::Linear(b) => Backend::Linear(b.with_flag(policies, flag)),
            Backend::Cow(b) => Backend::Cow(b.with_flag(policies, flag)),
            Backend::Shared(b) => Backend::Shared(b.with_flag(policies, flag)),
            Backend::File(b) => Backend::File(b.with_flag(policies, flag)),
        }
    }

    open spec fn without_flag(self, policies: Policies, flag: VmaFlags) -> Self {
        match self {
            Backend::Linear(b) => Backend::Linear(b.without_flag(policies, flag)),
            Backend::Cow(b) => Backend::Cow(b.without_flag(policies, flag)),
            Backend::Shared(b) => Backend::Shared(b.without_flag(policies, flag)),
            Backend::File(b) => Backend::File(b.without_flag(policies, flag)),
        }
    }

    open spec fn has_flag(self, flag: VmaFlags) -> bool {
        match self {
            Backend::Linear(b) => b.has_flag(flag),
            Backend::Cow(b) => b.has_flag(flag),
            Backend::Shared(b) => b.has_flag(flag),
            Backend::File(b) => b.has_flag(flag),
        }
    }

    open spec fn wants_huge(self, policies: Policies) -> bool {
        match self {
            Backend::Linear(b) => b.wants_huge(policies),
            Backend::Cow(b) => b.wants_huge(policies),
            Backend::Shared(b) => b.wants_huge(policies),
            Backend::File(b) => BackendOps::wants_huge(b, policies),
        }
    }

    fn page_size(&self) -> (r: PageSize) {
        match self {
            Backend::Linear(b) => b.page_size(),
            Backend::Cow(b) => b.page_size(),
            Backend::Shared(b) => b.page_size(),
            Backend::File(b) => b.page_size(),
        }
    }

    fn set_vma_flag(&mut self, policies: &Policies, flag: VmaFlags) {
        match self {
            Backend::Linear(b) => b.set_vma_flag(policies, flag),
            Backend::Cow(b) => b.set_vma_flag(policies, flag),
            Backend::Shared(b) => b.set_vma_flag(policies, flag),
            Backend::File(b) => b.set_vma_flag(policies, flag),
        }
    }

    fn clear_vma_flag(&mut self, policies: &Policies, flag: VmaFlags) {
        match self {
            Backend::Linear(b) => b.clear_vma_flag(policies, flag),
            Backend::Cow(b) => b.clear_vma_flag(policies, flag),
            Backend::Shared(b) => b.clear_vma_flag(policies, flag),
            Backend::File(b) => b.clear_vma_flag(policies, flag),
        }
    }

    fn contain_vma_flag(&self, flag: VmaFlags) -> (r: bool) {
        match self {
            Backend::Linear(b) => b.contain_vma_flag(flag),
            Backend::Cow(b) => b.contain_vma_flag(flag),
            Backend::Shared(b) => b.contain_vma_flag(flag),
            Backend::File(b) => b.contain_vma_flag(flag),
        }
    }

    fn transparent_hugepage_enabled(&self, policies: &Policies) -> (r: bool) {
        match self {
            Backend::Linear(b) => b.transparent_hugepage_enabled(policies),
            Backend::Cow(b) => b.transparent_hugepage_enabled(policies),
            Backend::Shared(b) => b.transparent_hugepage_enabled(policies),
            Backend::File(b) => b.transparent_hugepage_enabled(policies),
        }
    }
}

impl Backend {
    /// Memory whose physical addresses are the virtual ones less `offset`.
    pub fn new_linear(offset: isize) -> (r: Backend)
        ensures
            r == Backend::Linear(LinearBackend { offset }),
    {
        Backend::Linear(LinearBackend { offset })
    }

    /// A private copy of a file from `file_start` on, up to `file_end`.
    pub fn new_cow(
        start: usize,
        size: PageSize,
        file: OpenFileBackend,
        file_start: u64,
        file_end: Option<u64>,
        flags: VmaFlags,
    ) -> (r: Backend)
        ensures
            r == Backend::Cow(
                CowBackend {
                    start,
                    size,
                    file: Some(BackingFile { file, file_start, file_end }),
                    vma_flags: flags,
                },
            ),
    {
        Backend::Cow(
            CowBackend {
                start,
                size,
                file: Some(BackingFile { file, file_start, file_end }),
                vma_flags: flags,
            },
        )
    }

    /// Private memory that starts with zeros.
    pub fn new_alloc(start: usize, size: PageSize, flags: VmaFlags) -> (r: Backend)
        ensures
            r == Backend::Cow(CowBackend { start, size, file: None, vma_flags: flags }),
    {
        Backend::Cow(CowBackend { start, size, file: None, vma_flags: flags })
    }

    /// A mapping of a file from `offset` on, with a number of its own.
    pub fn new_file(id: u64, start: usize, cache: CachedFile, flags: FileFlags, offset: usize) -> (r:
        Backend)
        requires
            offset / PAGE_SIZE_4K <= u32::MAX,
        ensures
            r == Backend::File(
                FileBackend {
                    inner: FileBackendInner {
                        id,
                        start,
                        cache,
                        flags,
                        offset_page: (offset / PAGE_SIZE_4K) as u32,
                        handle: 0,
                        futex_handle: id,
                        vma_flags: VmaFlags { bits: 0 },
                    },
                },
            ),
    {
        Backend::File(
            FileBackend {
                inner: FileBackendInner {
                    id,
                    start,
                    cache,
                    flags,
                    offset_page: (offset / PAGE_SIZE_4K) as u32,
                    handle: 0,
                    futex_handle: id,
                    vma_flags: VmaFlags::empty(),
                },
            },
        )
    }

    /// A mapping of shared memory, with a number of its own.
    pub fn new_shared(id: u64, start: usize, cache: CachedFile) -> (r: Backend)
        ensures
            r == Backend::Shared(
                SharedBackend {
                    inner: SharedBackendInner {
                        id,
                        start,
                        cache,
                        vma_flags: VmaFlags { bits: 0 },
                    },
                },
            ),
    {
        Backend::Shared(
            SharedBackend {
                inner: SharedBackendInner { id, start, cache, vma_flags: VmaFlags::empty() },
            },
        )
    }
}

impl SharedBackend {
    /// The duplicate of the mapping for another page table: the same mapping.
    pub fn clone_map(&self) -> (r: Backend)
        ensures
            r == Backend::Shared(*self),
    {
        Backend::Shared(*self)
    }

    /// Shared memory may be mapped with any rights.
    pub fn map(&self, flags: MappingFlags) -> (r: Result<(), AxError>)
        ensures
            r is Ok,
    {
        Ok(())
    }
}

impl CowBackend {
    /// Private memory may be mapped with any rights.
    pub fn map(&self, flags: MappingFlags) -> (r: Result<(), AxError>)
        ensures
            r is Ok,
    {
        Ok(())
    }
}

impl LinearBackend {
    /// The duplicate of the mapping for another page table.
    pub fn clone_map(&self) -> (r: Backend)
        ensures
            r == Backend::Linear(*self),
    {
        Backend::Linear(*self)
    }

    /// Linear memory is never collapsed.
    pub fn try_collapse_page(&self) -> (r: Result<bool, AxError>)
        ensures
            r == Ok::<bool, AxError>(false),
    {
        Ok(false)
    }

    /// Linear memory is never collapsed: there is nothing to do.
    pub fn collapse_page(&self) -> (r: Result<(), AxError>)
        ensures
            r is Ok,
    {
        Ok(())
    }
}

impl FileBackend {
    /// The duplicate of the mapping for another page table: a mapping with the
    /// number `id`, no listener and no flags, that shares the wait handle.
    pub fn clone_map(&self, id: u64) -> (r: Backend)
        ensures
            r == Backend::File(
                FileBackend {
                    inner: FileBackendInner {
                        id,
                        handle: 0,
                        vma_flags: VmaFlags { bits: 0 },
                        ..self.inner
                    },
                },
            ),
    {
        Backend::File(
            FileBackend {
                inner: FileBackendInner {
                    id,
                    handle: 0,
                    vma_flags: VmaFlags::empty(),
                    ..self.inner
                },
            },
        )
    }
}

impl FileBackendInner {
    /// The listener that is to be taken from the cache when the mapping goes.
    pub fn listener(&self) -> (r: Option<usize>)
        ensures
            r == (if self.handle != 0 {
                Some(self.handle)
            } else {
                None
            }),
    {
        if self.handle != 0 {
            Some(self.handle)
        } else {
            None
        }
    }
}

/// Setting flags makes them set. Clearing flags leaves none of them set and every
/// other as it was.
proof fn lemma_flags(v: VmaFlags, flag: VmaFlags, other: VmaFlags)
    ensures
        v.union(flag).contains(flag),
        flag.bits != 0 ==> !v.difference(flag).contains(flag),
        v.difference(flag).difference(flag) == v.difference(flag),
        other.bits & flag.bits == 0 ==> v.difference(flag).contains(other) == v.contains(other),
        other.bits & flag.bits == 0 ==> v.union(flag).contains(other) == v.contains(other),
{
    let f = flag.bits;
    let a = v.bits;
    let o = other.bits;
    assert((a | f) & f == f) by (bit_vector);
    assert((a & !f) & f == 0) by (bit_vector);
    assert((a & !f) & !f == a & !f) by (bit_vector);
    if o & f == 0 {
        assert((a & !f) & o == a & o) by (bit_vector)
            requires
                o & f == 0,
        ;
        assert((a | f) & o == a & o) by (bit_vector)
            requires
                o & f == 0,
        ;
    }
}

/// Setting a flag makes it set, and clearing it makes it clear, however often it
/// is cleared. Flags that have nothing in common with it stay as they are. A
/// mapping of a file takes flags only while the policy is to follow hints, and
/// gives them up only while it is to use huge pages always: under the other
/// policies it stays as it is.
pub proof fn law_flags_are_set_and_cleared(
    c: CowBackend,
    s: SharedBackend,
    f: FileBackend,
    p: Policies,
    flag: VmaFlags,
    other: VmaFlags,
)
    ensures
        c.with_flag(p, flag).has_flag(flag),
        s.with_flag(p, flag).has_flag(flag),
        p.shmem is Advise ==> f.with_flag(p, flag).has_flag(flag),
        !(p.shmem is Advise) ==> f.with_flag(p, flag) == f,
        flag.bits != 0 ==> !c.without_flag(p, flag).has_flag(flag),
        flag.bits != 0 ==> !s.without_flag(p, flag).has_flag(flag),
        flag.bits != 0 && p.shmem is Always ==> !f.without_flag(p, flag).has_flag(flag),
        !(p.shmem is Always) ==> f.without_flag(p, flag) == f,
        c.without_flag(p, flag).without_flag(p, flag) == c.without_flag(p, flag),
        s.without_flag(p, flag).without_flag(p, flag) == s.without_flag(p, flag),
        f.without_flag(p, flag).without_flag(p, flag) == f.without_flag(p, flag),
        other.bits & flag.bits == 0 ==> {
            &&& c.with_flag(p, flag).has_flag(other) == c.has_flag(other)
            &&& s.with_flag(p, flag).has_flag(other) == s.has_flag(other)
            &&& f.with_flag(p, flag).has_flag(other) == f.has_flag(other)
            &&& c.without_flag(p, flag).has_flag(other) == c.has_flag(other)
            &&& s.without_flag(p, flag).has_flag(other) == s.has_flag(other)
            &&& f.without_flag(p, flag).has_flag(other) == f.has_flag(other)
        },
{
    lemma_flags(c.vma_flags, flag, other);
    lemma_flags(s.inner.vma_flags, flag, other);
    lemma_flags(f.inner.vma_flags, flag, other);
}

/// An area with the flag that forbids huge pages gets none, whatever the policy
/// is.
pub proof fn law_forbidden_huge_pages(c: CowBackend, s: SharedBackend, f: FileBackend, p: Policies)
    ensures
        c.has_flag(VmaFlags { bits: VmaFlags::VM_NOHUGEPAGE }) ==> !c.wants_huge(p),
        s.has_flag(VmaFlags { bits: VmaFlags::VM_NOHUGEPAGE }) ==> !s.wants_huge(p),
        f.has_flag(VmaFlags { bits: VmaFlags::VM_NOHUGEPAGE }) ==> !BackendOps::wants_huge(f, p),
{
}

} // verus!
