//! An operation on a mapping that is told of a failure ends with it, and a range that is
//! not one of whole pages is refused.

use vstd::prelude::*;
use crate::addr::{PageSize, VirtAddrRange};
use crate::effect::{Effect, Reply, Request, Turn};
use crate::error::{AxError, PagingError};
use crate::flags::MappingFlags;
use crate::fs::cache::CacheView;
use crate::fs::fetch::PageFetch;
use crate::fs::split::Split;
use crate::mm::cow::{CowBackend, CowUnmap};
use crate::mm::cow_clone::CowClone;
use crate::mm::cow_collapse::CowCollapseView;
use crate::mm::cow_populate::CowPopulate;
use crate::mm::file::{FileBackend, FileUnmap};
use crate::mm::file_collapse::FileCollapseView;
use crate::mm::file_populate::{FilePopulate, FilePopulateView};
use crate::mm::shared::{SharedBackend, SharedUnmap};
use crate::mm::shared_collapse::{Demote, SharedCollapse, SharedCollapseView};
use crate::mm::shared_populate::SharedPopulate;

verus! {

/// The error for a fault of the page table: that there is no memory, or that the
/// input is not right.
pub open spec fn fault_error(f: PagingError) -> AxError {
    if f is NoMemory {
        AxError::NoMemory
    } else {
        AxError::InvalidInput
    }
}

/// A population of private memory that gets no memory or cannot read its file fails
/// with that. A page that cannot be looked up is a bad address; another fault fails
/// as such. Nothing else happens then.
pub proof fn law_failed_population_ends(
    t: CowPopulate,
    frames: Map<usize, u8>,
    e: AxError,
    f: PagingError,
)
    ensures
        t.awaits(frames, Reply::Failed(e)) ==> t.after(frames, Reply::Failed(e)).turn
            == Turn::Finished(Err::<usize, AxError>(e)) && t.after(frames, Reply::Failed(e)).frames
            == frames && t.after(frames, Reply::Failed(e)).effects.len() == 0,
        t.awaits(frames, Reply::Fault(f)) ==> t.after(frames, Reply::Fault(f)).frames == frames
            && t.after(frames, Reply::Fault(f)).effects.len() == 0,
        t.awaits(frames, Reply::Fault(f)) ==> (if t.state is AwaitEntry {
            f is NotMapped || t.after(frames, Reply::Fault(f)).turn == Turn::Finished(
                Err::<usize, AxError>(AxError::BadAddress),
            )
        } else {
            t.after(frames, Reply::Fault(f)).turn == Turn::Finished(
                Err::<usize, AxError>(fault_error(f)),
            )
        }),
{
}

/// An unmapping of private memory passes over a page that cannot be looked up, and
/// fails with any other fault. A duplication passes over a page that is not there;
/// one that cannot be looked up is a bad address, and any other fault fails as such.
/// No mapping is counted, or counted off, then.
pub proof fn law_failed_unmapping_ends(
    t: CowUnmap,
    c: CowClone,
    frames: Map<usize, u8>,
    f: PagingError,
)
    ensures
        t.awaits(Reply::Fault(f)) ==> t.after(frames, Reply::Fault(f)).frames == frames && t.after(
            frames,
            Reply::Fault(f),
        ).effects.len() == 0,
        c.awaits(frames, Reply::Fault(f)) ==> c.after(frames, Reply::Fault(f)).frames == frames
            && c.after(frames, Reply::Fault(f)).effects.len() == 0,
        t.awaits(Reply::Fault(f)) ==> (if t.state is AwaitEntry {
            !(t.after(frames, Reply::Fault(f)).turn matches Turn::Finished(Err(_)))
        } else {
            t.after(frames, Reply::Fault(f)).turn == Turn::Finished(
                Err::<(), AxError>(fault_error(f)),
            )
        }),
        c.awaits(frames, Reply::Fault(f)) ==> (if c.state is AwaitEntry && f is NotMapped {
            !(c.after(frames, Reply::Fault(f)).turn matches Turn::Finished(Err(_)))
        } else {
            c.after(frames, Reply::Fault(f)).turn == Turn::Finished(
                Err::<CowBackend, AxError>(
                    if c.state is AwaitEntry {
                        AxError::BadAddress
                    } else {
                        fault_error(f)
                    },
                ),
            )
        }),
{
}

/// A collapse of private memory that gets no memory fails with that. A page that
/// cannot be looked up is a bad address, and so is a window that cannot be mapped,
/// whose new frame is given back.
pub proof fn law_failed_collapse_ends(
    t: CowCollapseView,
    frames: Map<usize, u8>,
    e: AxError,
    f: PagingError,
)
    ensures
        t.state is AwaitFrame ==> t.after(frames, Reply::Failed(e)).turn == Turn::Finished(
            Err::<(), AxError>(e),
        ),
        t.state is AwaitEntry && !(f is NotMapped) ==> t.after(frames, Reply::Fault(f)).turn
            == Turn::Finished(Err::<(), AxError>(AxError::BadAddress)),
        t.state is AwaitFaulted ==> t.after(frames, Reply::Fault(f)).turn == Turn::Finished(
            Err::<(), AxError>(fault_error(f)),
        ),
        t.state is AwaitFrame ==> t.after(frames, Reply::Failed(e)).frames == frames && t.after(
            frames,
            Reply::Failed(e),
        ).effects.len() == 0,
        (t.state is AwaitEntry && !(f is NotMapped)) || t.state is AwaitFaulted ==> t.after(
            frames,
            Reply::Fault(f),
        ).frames == frames && t.after(frames, Reply::Fault(f)).effects.len() == 0,
        t.state is AwaitRemap ==> {
            let s = t.after(frames, Reply::Fault(f));
            &&& s.turn == Turn::Finished(Err::<(), AxError>(AxError::BadAddress))
            &&& s.effects == seq![Effect::FreeFrame { paddr: t.new_pa, size: PageSize::Size2M }]
            &&& s.frames == frames
        },
{
    reveal(CowCollapseView::after);
    if t.state is AwaitRemap {
        assert(t.giving_back() =~= seq![
            Effect::FreeFrame { paddr: t.new_pa, size: PageSize::Size2M },
        ]);
    }
}

/// A population of a mapped file or of shared memory that is told of a failure fails
/// with it, and leaves the cache as it is. A page that cannot be looked up is a bad
/// address.
pub proof fn law_failed_mapped_population_ends(
    t: FilePopulateView,
    u: SharedPopulate,
    cache: CacheView,
    e: AxError,
    f: PagingError,
)
    ensures
        t.awaits(cache, Reply::Failed(e)) ==> t.after(cache, Reply::Failed(e)).cache == cache,
        t.awaits(cache, Reply::Fault(f)) && !(t.state is AwaitEntry) ==> t.after(
            cache,
            Reply::Fault(f),
        ).cache == cache,
        u.awaits(Reply::Failed(e)) ==> u.after(cache, Reply::Failed(e)).cache == cache,
        u.awaits(Reply::Fault(f)) && !(u.state is AwaitEntry) ==> u.after(cache, Reply::Fault(f)).cache
            == cache,
        t.awaits(cache, Reply::Failed(e)) ==> t.after(cache, Reply::Failed(e)).turn
            == Turn::Finished(Err::<usize, AxError>(e)),
        t.awaits(cache, Reply::Fault(f)) && !(t.state is AwaitEntry && f is NotMapped) ==> t.after(
            cache,
            Reply::Fault(f),
        ).turn == Turn::Finished(
            Err::<usize, AxError>(
                if t.state is AwaitEntry {
                    AxError::BadAddress
                } else {
                    fault_error(f)
                },
            ),
        ),
        u.awaits(Reply::Failed(e)) ==> u.after(cache, Reply::Failed(e)).turn == Turn::Finished(
            Err::<usize, AxError>(e),
        ),
        u.awaits(Reply::Fault(f)) && !(u.state is AwaitEntry && f is NotMapped) ==> u.after(
            cache,
            Reply::Fault(f),
        ).turn == Turn::Finished(
            Err::<usize, AxError>(
                if u.state is AwaitEntry {
                    AxError::BadAddress
                } else {
                    fault_error(f)
                },
            ),
        ),
{
    reveal(PageFetch::after);
    reveal(FilePopulateView::after);
    reveal(SharedPopulate::after);
}

/// An unmapping of a mapped file or of shared memory that is told of a failure fails
/// with it, unless it is that the page is not there. A fault leaves the cache as it is.
pub proof fn law_failed_mapped_unmapping_ends(
    t: FileUnmap,
    u: SharedUnmap,
    cache: CacheView,
    e: AxError,
    f: PagingError,
)
    ensures
        u.awaits(cache, Reply::Fault(f)) ==> u.after(cache, Reply::Fault(f)).cache == cache && u.after(
            cache,
            Reply::Fault(f),
        ).effects.len() == 0,
        t.awaits(Reply::Fault(f)) && !(t.state is AwaitEntry && f is NotMapped) ==> t.after(
            Reply::Fault(f),
        ).1 == Turn::Finished(Err::<(), AxError>(fault_error(f))),
        u.awaits(cache, Reply::Fault(f)) && !(u.state is AwaitEntry && f is NotMapped) ==> u.after(
            cache,
            Reply::Fault(f),
        ).turn == Turn::Finished(Err::<(), AxError>(fault_error(f))),
        u.awaits(cache, Reply::Failed(e)) ==> u.after(cache, Reply::Failed(e)).turn == Turn::Finished(
            Err::<(), AxError>(e),
        ),
{
    reveal(Split::after);
}

/// A collapse of a mapped file or of shared memory that is told of a failure fails
/// with it. A page that cannot be looked up is a bad address.
pub proof fn law_failed_mapped_collapse_ends(
    t: SharedCollapseView,
    u: FileCollapseView,
    d: Demote,
    cache: CacheView,
    e: AxError,
    f: PagingError,
)
    ensures
        t.state is AwaitEntry && !(f is NotMapped) ==> t.after(cache, Reply::Fault(f)).turn
            == Turn::Finished(Err::<bool, AxError>(AxError::BadAddress)),
        t.state is AwaitRemap ==> t.after(cache, Reply::Fault(f)).turn == Turn::Finished(
            Err::<bool, AxError>(fault_error(f)),
        ),
        t.state is Merging && t.awaits(Reply::Failed(e)) ==> t.after(cache, Reply::Failed(e)).turn
            == Turn::Finished(Err::<bool, AxError>(e)),
        u.state is AwaitEntry && !(f is NotMapped) ==> u.after(cache, Reply::Fault(f)).turn
            == Turn::Finished(Err::<bool, AxError>(AxError::BadAddress)),
        u.state is AwaitRemap ==> u.after(cache, Reply::Fault(f)).turn == Turn::Finished(
            Err::<bool, AxError>(fault_error(f)),
        ),
        u.state is Merging && u.awaits(cache, Reply::Failed(e)) ==> u.after(
            cache,
            Reply::Failed(e),
        ).turn == Turn::Finished(Err::<bool, AxError>(e)),
        d.state is AwaitSplit ==> d.after(cache, Reply::Fault(f)).turn == Turn::Finished(
            Err::<(), AxError>(fault_error(f)),
        ),
        d.state is Splitting && d.awaits(Reply::Failed(e)) ==> d.after(cache, Reply::Failed(e)).turn
            == Turn::Finished(Err::<(), AxError>(e)),
{
    reveal(Split::after);
    reveal(FileCollapseView::after);
    reveal(SharedCollapseView::after);
}

/// A range that does not start and end at pages of the mapping is refused for private
/// memory, and nothing happens to it. Any other range is begun at its start.
pub proof fn law_private_ranges_are_whole_pages(
    b: CowBackend,
    range: VirtAddrRange,
    flags: MappingFlags,
    access: MappingFlags,
    p: CowPopulate,
    u: CowUnmap,
    c: CowClone,
    frames: Map<usize, u8>,
)
    requires
        range.start <= range.end,
        call_ensures(CowBackend::populate, (&b, range, flags, access), p),
        call_ensures(CowBackend::unmap, (&b, range), u),
        call_ensures(CowBackend::clone_map, (&b, range, flags), c),
    ensures
        ({
            let bytes = match b.size {
                PageSize::Size4K => 4096int,
                PageSize::Size2M => 2_097_152,
                PageSize::Size1G => 1_073_741_824,
            };
            let whole = range.start as int % bytes == 0 && range.end as int % bytes == 0;
            let x = p.after(frames, Reply::Start);
            let y = u.after(frames, Reply::Start);
            let z = c.after(frames, Reply::Start);
            &&& x.frames == frames && y.frames == frames && z.frames == frames
            &&& x.effects.len() == 0 && y.effects.len() == 0 && z.effects.len() == 0
            &&& !whole ==> {
                &&& x.turn == Turn::Finished(Err::<usize, AxError>(AxError::InvalidInput))
                &&& y.turn == Turn::Finished(Err::<(), AxError>(AxError::InvalidInput))
                &&& z.turn == Turn::Finished(Err::<CowBackend, AxError>(AxError::InvalidInput))
            }
            &&& whole && range.start == range.end ==> {
                &&& x.turn == Turn::Finished(Ok::<usize, AxError>(0))
                &&& y.turn == Turn::Finished(Ok::<(), AxError>(()))
                &&& z.turn == Turn::Finished(Ok::<CowBackend, AxError>(b))
            }
            &&& whole && range.start < range.end ==> {
                &&& x.turn == Turn::<usize>::Ask(Request::Query { va: range.start })
                &&& y.turn == Turn::<()>::Ask(Request::Query { va: range.start })
                &&& z.turn == Turn::<CowBackend>::Ask(Request::Query { va: range.start })
            }
        }),
{
}

/// A range that does not start and end at small pages is refused for a mapped file, and
/// for shared memory that is unmapped or collapsed, and nothing happens to it. A range
/// of a mapped file is brought in only if the file goes as far.
pub proof fn law_mapped_ranges_are_whole_pages(
    f: FileBackend,
    s: SharedBackend,
    range: VirtAddrRange,
    flags: MappingFlags,
    access: MappingFlags,
    p: FilePopulate,
    u: FileUnmap,
    v: SharedUnmap,
    c: SharedCollapse,
    cache: CacheView,
    len: u64,
)
    requires
        f.inner.start <= range.start <= range.end,
        call_ensures(FileBackend::populate, (&f, range, flags, access), p),
        call_ensures(FileBackend::unmap, (&f, range), u),
        call_ensures(SharedBackend::unmap, (&s, range), v),
        call_ensures(SharedBackend::collapse_page, (&s, range), c),
    ensures
        ({
            let whole = range.start as int % 4096 == 0 && range.end as int % 4096 == 0;
            let x = p@.after(cache, Reply::Start);
            let y = u.after(Reply::Start);
            let z = v.after(cache, Reply::Start);
            let w = c@.after(cache, Reply::Start);
            &&& x.cache == cache && z.cache == cache
            &&& x.effects.len() == 0 && z.effects.len() == 0
            &&& !whole ==> {
                &&& x.turn == Turn::Finished(Err::<usize, AxError>(AxError::InvalidInput))
                &&& y.1 == Turn::Finished(Err::<(), AxError>(AxError::InvalidInput))
                &&& z.turn == Turn::Finished(Err::<(), AxError>(AxError::InvalidInput))
                &&& w.turn == Turn::Finished(Err::<bool, AxError>(AxError::InvalidInput))
                &&& w.cache == cache && w.effects.len() == 0
            }
            &&& whole ==> {
                &&& x.turn == Turn::<usize>::Ask(Request::FileLen)
                &&& range.start < range.end ==> y.1 == Turn::<()>::Ask(
                    Request::Query { va: range.start },
                )
                &&& range.start < range.end ==> z.turn == Turn::<()>::Ask(
                    Request::Query { va: range.start },
                )
                &&& range.start == range.end ==> y.1 == Turn::Finished(Ok::<(), AxError>(()))
                    && z.turn == Turn::Finished(Ok::<(), AxError>(()))
                &&& range.start - f.inner.start >= len ==> x.next.after(cache, Reply::Len(len)).turn
                    == Turn::Finished(Err::<usize, AxError>(AxError::BadAddress))
                &&& range.start - f.inner.start < len && range.start < range.end ==> x.next.after(
                    cache,
                    Reply::Len(len),
                ).turn == Turn::<usize>::Ask(Request::Query { va: range.start })
            }
        }),
{
    reveal(SharedCollapseView::after);
    reveal(FilePopulateView::after);
}

} // verus!
