//! What mappings are made of, which rights and huge pages they may have, and where
//! the pages of their files stand.

use vstd::prelude::*;
use crate::addr::{PageSize, VirtAddrRange};
use crate::effect::{Reply, Request, Turn};
use crate::error::{AxError, VfsError};
use crate::flags::{FileFlags, MappingFlags, VmaFlags};
use crate::fs::backend::FileBackend as OpenFileBackend;
use crate::fs::cached_file::CachedFile;
use crate::fs::page::PageOperation;
use crate::mm::backend::{Backend, BackendOps};
use crate::mm::cow::CowBackend;
use crate::mm::file::{FileBackend, FileBackendInner};
use crate::mm::linear::{LinearBackend, Region};
use crate::mm::policy::{
    current_shmem_thp_policy, current_thp_policy, set_shmem_thp_policy, set_thp_policy, Policies,
    ShmemThpPolicy, ThpPolicy,
};
use crate::mm::shared::{SharedBackend, SharedBackendInner};
use crate::text::trimmed;

verus! {

/// The flags of the area that a mapping has.
pub open spec fn area_flags(b: Backend) -> usize {
    match b {
        Backend::Linear(_) => 0,
        Backend::Cow(c) => c.vma_flags.bits,
        Backend::Shared(s) => s.inner.vma_flags.bits,
        Backend::File(f) => f.inner.vma_flags.bits,
    }
}

/// A mapping uses huge pages where they are not forbidden for it, and either the
/// policy is to use them always or it was advised to and the policy follows advice.
/// Private memory goes by its own policy, shared memory and files without a device
/// by the other. Linear memory and files with a device never have them.
pub proof fn law_huge_pages_where_they_are_wanted(b: Backend, p: Policies, r: bool)
    requires
        call_ensures(<Backend as BackendOps>::transparent_hugepage_enabled, (&b, &p), r),
    ensures
        ({
            let forbidden = area_flags(b) & 0x4000_0000 == 0x4000_0000;
            let advised = area_flags(b) & 0x2000_0000 == 0x2000_0000;
            r <==> !forbidden && match b {
                Backend::Linear(_) => false,
                Backend::Cow(_) => match p.thp {
                    ThpPolicy::Always => true,
                    ThpPolicy::Madvise => advised,
                    ThpPolicy::Never => false,
                },
                Backend::Shared(_) => match p.shmem {
                    ShmemThpPolicy::Always => true,
                    ShmemThpPolicy::Advise => advised,
                    ShmemThpPolicy::Never => false,
                },
                Backend::File(f) => f.inner.cache.in_memory && (advised || p.shmem is Always),
            }
        }),
{
}

/// Setting a flag of an area sets it and keeps the others; clearing it clears it and
/// keeps the others. A mapping of a file takes flags only while the policy is to
/// follow advice, and gives them up only while it is to use huge pages always. Linear
/// memory has no flags. Nothing else changes, and a flag tells whether it is set.
pub proof fn law_area_flags_are_set_and_cleared(
    set: &mut Backend,
    cleared: &mut Backend,
    p: Policies,
    flag: VmaFlags,
    b: Backend,
    r: bool,
    size: PageSize,
)
    requires
        call_ensures(<Backend as BackendOps>::set_vma_flag, (set, &p, flag), ()),
        call_ensures(<Backend as BackendOps>::clear_vma_flag, (cleared, &p, flag), ()),
        call_ensures(<Backend as BackendOps>::contain_vma_flag, (&b, flag), r),
        call_ensures(<Backend as BackendOps>::page_size, (&b,), size),
    ensures
        *final(set) == (match *old(set) {
            Backend::Linear(l) => Backend::Linear(l),
            Backend::Cow(c) => Backend::Cow(
                CowBackend { vma_flags: VmaFlags { bits: c.vma_flags.bits | flag.bits }, ..c },
            ),
            Backend::Shared(s) => Backend::Shared(
                SharedBackend {
                    inner: SharedBackendInner {
                        vma_flags: VmaFlags { bits: s.inner.vma_flags.bits | flag.bits },
                        ..s.inner
                    },
                },
            ),
            Backend::File(f) => if p.shmem is Advise {
                Backend::File(
                    FileBackend {
                        inner: FileBackendInner {
                            vma_flags: VmaFlags { bits: f.inner.vma_flags.bits | flag.bits },
                            ..f.inner
                        },
                    },
                )
            } else {
                Backend::File(f)
            },
        }),
        *final(cleared) == (match *old(cleared) {
            Backend::Linear(l) => Backend::Linear(l),
            Backend::Cow(c) => Backend::Cow(
                CowBackend { vma_flags: VmaFlags { bits: c.vma_flags.bits & !flag.bits }, ..c },
            ),
            Backend::Shared(s) => Backend::Shared(
                SharedBackend {
                    inner: SharedBackendInner {
                        vma_flags: VmaFlags { bits: s.inner.vma_flags.bits & !flag.bits },
                        ..s.inner
                    },
                },
            ),
            Backend::File(f) => if p.shmem is Always {
                Backend::File(
                    FileBackend {
                        inner: FileBackendInner {
                            vma_flags: VmaFlags { bits: f.inner.vma_flags.bits & !flag.bits },
                            ..f.inner
                        },
                    },
                )
            } else {
                Backend::File(f)
            },
        }),
        r <==> !(b is Linear) && area_flags(b) & flag.bits == flag.bits,
        size == (match b {
            Backend::Cow(c) => c.size,
            _ => PageSize::Size4K,
        }),
{
}

/// A mapping of a file may have the rights to read and to write for which the file
/// was opened, when it is made and later on. Other mappings may have any.
pub proof fn law_rights_need_those_of_the_file(
    f: FileBackend,
    flags: MappingFlags,
    mapped: Result<(), AxError>,
    changed: Result<(), AxError>,
    checked: Result<(), AxError>,
    s: SharedBackend,
    shared: Result<(), AxError>,
    c: CowBackend,
    private: Result<(), AxError>,
)
    requires
        call_ensures(FileBackend::map, (&f, flags), mapped),
        call_ensures(FileBackend::on_protect, (&f, flags), changed),
        call_ensures(FileBackend::check_flags, (&f, flags), checked),
        call_ensures(SharedBackend::map, (&s, flags), shared),
        call_ensures(CowBackend::map, (&c, flags), private),
    ensures
        mapped is Ok <==> {
            &&& flags.bits & 1 == 1 ==> f.inner.flags.bits & 1 == 1
            &&& flags.bits & 2 == 2 ==> f.inner.flags.bits & 2 == 2
        },
        mapped matches Err(e) ==> e is PermissionDenied,
        changed == mapped,
        checked == mapped,
        shared is Ok,
        private is Ok,
{
    let x = f.inner.flags.bits;
    let read = flags.bits & 1 == 1;
    let write = flags.bits & 2 == 2;
    assert(x & (0u8 | 0u8) == (0u8 | 0u8) && (x & (1u8 | 0u8) == (1u8 | 0u8)) == (x & 1 == 1) && (x & (
    0u8 | 2u8) == (0u8 | 2u8)) == (x & 2 == 2) && (x & (1u8 | 2u8) == (1u8 | 2u8)) == (x & 1 == 1 && x
        & 2 == 2)) by (bit_vector);
}

/// Whether a request carries an operation on a page out at an address.
pub open spec fn carries_out(request: Request, op: PageOperation, va: int) -> bool {
    match op {
        PageOperation::Unmap => request matches Request::UnmapPage { va: at } && at == va,
        PageOperation::Demote => request matches Request::SplitHuge { va: at } && at == va,
    }
}

/// A page of a file that leaves the cache or is split there is unmapped or split in a
/// mapping where that maps it: at the address that is as far behind the start of the
/// mapping as the page is behind the offset of the mapping in the file. Nothing
/// happens if another mapping stands there.
pub proof fn law_evicted_page_is_unmapped_where_it_was_mapped(
    f: FileBackendInner,
    s: SharedBackendInner,
    pn: u32,
    area: Option<Backend>,
    op: PageOperation,
    r: Option<Request>,
    t: Option<Request>,
    at: Option<usize>,
    place: Option<usize>,
)
    requires
        call_ensures(FileBackendInner::on_evict, (&f, pn, area, op), r),
        call_ensures(SharedBackendInner::on_evict, (&s, pn, area, op), t),
        call_ensures(FileBackendInner::address, (&f, pn), at),
        call_ensures(SharedBackendInner::address, (&s, pn), place),
        f.start + pn * 4096 <= usize::MAX,
        s.start + pn * 4096 <= usize::MAX,
    ensures
        r is Some <==> pn >= f.offset_page && (area matches Some(Backend::File(b)) && b.inner.id
            == f.id),
        r matches Some(request) ==> carries_out(
            request,
            op,
            f.start + (pn * 4096 - f.offset_page * 4096),
        ),
        t is Some <==> (area matches Some(Backend::Shared(b)) && b.inner.id == s.id),
        t matches Some(request) ==> carries_out(request, op, s.start + pn * 4096),
        at is Some <==> pn >= f.offset_page,
        at matches Some(va) ==> va - f.start == pn * 4096 - f.offset_page * 4096,
        place matches Some(va) && va - s.start == pn * 4096,
{
}

/// A mapping is made of what is given for it: private memory starts with zeros or
/// with the file from an offset on, a mapping of a file starts with the page at the
/// offset, and has no listener and no flags yet.
pub proof fn law_mappings_are_made_of_what_is_given(
    start: usize,
    size: PageSize,
    file: OpenFileBackend,
    file_start: u64,
    file_end: Option<u64>,
    flags: VmaFlags,
    cow: Backend,
    anonymous: Backend,
    id: u64,
    cache: CachedFile,
    rights: FileFlags,
    offset: usize,
    mapped: Backend,
    shared: Backend,
    distance: isize,
    linear: Backend,
)
    requires
        call_ensures(Backend::new_cow, (start, size, file, file_start, file_end, flags), cow),
        call_ensures(Backend::new_alloc, (start, size, flags), anonymous),
        offset / 4096 <= u32::MAX,
        call_ensures(Backend::new_file, (id, start, cache, rights, offset), mapped),
        call_ensures(Backend::new_shared, (id, start, cache), shared),
        call_ensures(Backend::new_linear, (distance,), linear),
    ensures
        cow matches Backend::Cow(c) && c.start == start && c.size == size && c.vma_flags == flags && (
        c.file matches Some(f) && f.file == file && f.file_start == file_start && f.file_end
            == file_end),
        anonymous matches Backend::Cow(c) && c.start == start && c.size == size && c.vma_flags
            == flags && c.file is None,
        mapped matches Backend::File(f) && f.inner.id == id && f.inner.futex_handle == id
            && f.inner.start == start && f.inner.cache == cache && f.inner.flags == rights
            && f.inner.offset_page * 4096 <= offset < f.inner.offset_page * 4096 + 4096
            && f.inner.handle == 0 && f.inner.vma_flags.bits == 0,
        shared matches Backend::Shared(s) && s.inner.id == id && s.inner.start == start
            && s.inner.cache == cache && s.inner.vma_flags.bits == 0,
        linear matches Backend::Linear(l) && l.offset == distance,
{
}

/// The duplicate of a mapping shows the same: that of shared memory or of linear
/// memory is the mapping itself, that of a file is told from it by its number alone,
/// and has its own listener and flags. Only a mapping with a listener has one to be
/// taken from the cache.
pub proof fn law_duplicates_show_the_same(
    s: SharedBackend,
    shared: Backend,
    l: LinearBackend,
    linear: Backend,
    f: FileBackend,
    id: u64,
    mapped: Backend,
    futex: u64,
    other: FileBackendInner,
    same: bool,
    listener: Option<usize>,
    in_memory: bool,
)
    requires
        call_ensures(SharedBackend::clone_map, (&s,), shared),
        call_ensures(LinearBackend::clone_map, (&l,), linear),
        call_ensures(FileBackend::clone_map, (&f, id), mapped),
        call_ensures(FileBackend::futex_handle, (&f,), futex),
        call_ensures(FileBackend::ptr_eq_inner, (&f, &other), same),
        call_ensures(FileBackendInner::listener, (&f.inner,), listener),
        call_ensures(FileBackend::is_in_memory, (&f,), in_memory),
    ensures
        shared == Backend::Shared(s),
        linear == Backend::Linear(l),
        mapped matches Backend::File(d) && d.inner.id == id && d.inner.handle == 0
            && d.inner.vma_flags.bits == 0 && d.inner.start == f.inner.start && d.inner.cache
            == f.inner.cache && d.inner.flags == f.inner.flags && d.inner.offset_page
            == f.inner.offset_page && d.inner.futex_handle == futex,
        same <==> f.inner.id == other.id,
        listener is Some <==> f.inner.handle != 0,
        listener matches Some(handle) ==> handle == f.inner.handle,
        in_memory == f.inner.cache.in_memory,
{
}

/// Linear memory is mapped and unmapped as one region, from its first address on,
/// to the physical address that differs by the distance of the mapping, up to a
/// multiple of the whole address space. A fault ends that with its error.
pub proof fn law_linear_memory_is_one_region(
    l: LinearBackend,
    range: VirtAddrRange,
    flags: MappingFlags,
    m: Region,
    u: Region,
    va: usize,
    pa: usize,
)
    requires
        range.start <= range.end,
        call_ensures(LinearBackend::map, (&l, range, flags), m),
        call_ensures(LinearBackend::unmap, (&l, range), u),
        call_ensures(LinearBackend::pa, (&l, va), pa),
        l.reaches(va),
        l.reaches(range.start),
    ensures
        ({
            let whole = usize::MAX + 1;
            let d = va - l.offset - pa;
            d == 0 || d == whole || d == -whole
        }),
        m.after(Reply::Start).1 matches Turn::Ask(Request::MapRegion { va: at, paddr, len, flags: rights })
            && at == range.start && len == range.end - range.start && rights == flags && ({
            let whole = usize::MAX + 1;
            let d = range.start - l.offset - paddr;
            d == 0 || d == whole || d == -whole
        }),
        u.after(Reply::Start).1 matches Turn::Ask(Request::UnmapRegion { va: at, len }) && at
            == range.start && len == range.end - range.start,
        m.after(Reply::Start).0.after(Reply::Done).1 == Turn::Finished(Ok::<(), AxError>(())),
        u.after(Reply::Start).0.after(Reply::Done).1 == Turn::Finished(Ok::<(), AxError>(())),
        forall|e: crate::error::PagingError| (#[trigger] m.after(Reply::Start).0.after(
            Reply::Fault(e),
        )).1 matches Turn::Finished(Err(_)),
{
}

/// At first huge pages are for the areas that ask for them.
pub proof fn law_huge_pages_are_asked_for_at_first(p: Policies)
    requires
        call_ensures(Policies::new, (), p),
    ensures
        p.thp is Madvise,
        p.shmem is Advise,
{
}

/// A policy is set by its name, with white space around it or without, and told by
/// it. White space alone changes nothing, and any other text is refused.
pub proof fn law_policies_are_set_by_name(
    p: &mut Policies,
    text: &str,
    r: Result<Vec<u8>, VfsError>,
    q: &mut Policies,
    s: Result<Vec<u8>, VfsError>,
    told: String,
    shmem_told: String,
)
    requires
        call_ensures(set_thp_policy, (p, text), r),
        call_ensures(set_shmem_thp_policy, (q, text), s),
        call_ensures(current_thp_policy, (&*old(p),), told),
        call_ensures(current_shmem_thp_policy, (&*old(q),), shmem_told),
    ensures
        ({
            let name = trimmed(text@);
            &&& r is Ok <==> name.len() == 0 || name == "always"@ || name == "madvise"@ || name
                == "never"@
            &&& r matches Err(e) ==> e is InvalidInput
            &&& final(p).shmem == old(p).shmem
            &&& final(p).thp == (if name == "always"@ {
                ThpPolicy::Always
            } else if name == "madvise"@ {
                ThpPolicy::Madvise
            } else if name == "never"@ {
                ThpPolicy::Never
            } else {
                old(p).thp
            })
            &&& s is Ok <==> name.len() == 0 || name == "always"@ || name == "advise"@ || name
                == "never"@
            &&& s matches Err(e) ==> e is InvalidInput
            &&& final(q).thp == old(q).thp
            &&& final(q).shmem == (if name == "always"@ {
                ShmemThpPolicy::Always
            } else if name == "advise"@ {
                ShmemThpPolicy::Advise
            } else if name == "never"@ {
                ShmemThpPolicy::Never
            } else {
                old(q).shmem
            })
        }),
        told@ == (match old(p).thp {
            ThpPolicy::Always => "always"@,
            ThpPolicy::Madvise => "madvise"@,
            ThpPolicy::Never => "never"@,
        }),
        shmem_told@ == (match old(q).shmem {
            ShmemThpPolicy::Always => "always"@,
            ShmemThpPolicy::Advise => "advise"@,
            ShmemThpPolicy::Never => "never"@,
        }),
{
    reveal_strlit("always");
    reveal_strlit("madvise");
    reveal_strlit("advise");
    reveal_strlit("never");
    assert("always"@[0] == 'a' && "madvise"@[0] == 'm' && "advise"@[0] == 'a' && "never"@[0] == 'n');
    assert("always"@[1] == 'l' && "advise"@[1] == 'd');
}

} // verus!
