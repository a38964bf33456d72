//! Memory whose physical addresses follow from the virtual ones.

use vstd::prelude::*;
use vstd::pervasive::unreached;
use crate::addr::VirtAddrRange;
use crate::effect::{Reply, Request, Turn};
use crate::flags::MappingFlags;

verus! {

/// A mapping in which the physical address is the virtual one less a constant.
#[derive(Debug, Clone, Copy, PartialEq, Eq, Structural)]
pub struct LinearBackend {
    pub offset: isize,
}

/// An address as a signed number: the upper half of the address space comes
/// before zero.
pub open spec fn signed(va: usize) -> int {
    if va <= isize::MAX {
        va as int
    } else {
        va - usize::MAX - 1
    }
}

impl LinearBackend {
    /// Whether an address has a physical address: the difference of the signed
    /// numbers is a signed number.
    pub open spec fn reaches(self, va: usize) -> bool {
        isize::MIN <= signed(va) - self.offset <= isize::MAX
    }

    /// The physical address of an address.
    pub open spec fn physical(self, va: usize) -> usize {
        let pa = signed(va) - self.offset;
        if pa >= 0 {
            pa as usize
        } else {
            (pa + usize::MAX + 1) as usize
        }
    }

    /// The physical address of an address.
    pub fn pa(&self, va: usize) -> (r: usize)
        requires
            self.reaches(va),
        ensures
            r == self.physical(va),
    {
        if self.offset >= 0 {
            va.wrapping_sub(self.offset as usize)
        } else {
            let below: usize = (-(self.offset + 1)) as usize;
            va.wrapping_add(below).wrapping_add(1)
        }
    }
}

/// A request about a whole region.
#[derive(Debug, Clone, Copy, PartialEq, Eq, Structural)]
pub struct Region {
    pub request: Request,
    pub asked: bool,
}

impl Region {
    /// Whether the reply can be one to the last request.
    pub open spec fn awaits(self, reply: Reply) -> bool {
        if self.asked {
            reply is Done || reply is Fault
        } else {
            reply is Start
        }
    }

    /// What the step does.
    pub open spec fn after(self, reply: Reply) -> (Region, Turn<()>) {
        if !self.asked {
            (Region { asked: true, ..self }, Turn::Ask(self.request))
        } else {
            match reply {
                Reply::Fault(e) => (self, Turn::Finished(Err(e.into_error()))),
                _ => (self, Turn::Finished(Ok(()))),
            }
        }
    }

    /// Goes on with the request.
    pub fn step(&mut self, reply: Reply) -> (r: Turn<()>)
        requires
            old(self).awaits(reply),
        ensures
            (*final(self), r) == old(self).after(reply),
    {
        if !self.asked {
            self.asked = true;
            return Turn::Ask(self.request);
        }
        match reply {
            Reply::Done => Turn::Finished(Ok(())),
            Reply::Fault(e) => Turn::Finished(Err(e.into_error())),
            _ => unreached(),
        }
    }
}

impl LinearBackend {
    /// Maps a range to the frames that follow from its addresses.
    pub fn map(&self, range: VirtAddrRange, flags: MappingFlags) -> (r: Region)
        requires
            range.wf(),
            self.reaches(range.start),
        ensures
            r == (Region {
                request: Request::MapRegion {
                    va: range.start,
                    paddr: self.physical(range.start),
                    len: (range.end - range.start) as usize,
                    flags,
                },
                asked: false,
            }),
    {
        Region {
            request: Request::MapRegion {
                va: range.start,
                paddr: self.pa(range.start),
                len: range.size(),
                flags,
            },
            asked: false,
        }
    }

    /// Unmaps a range.
    pub fn unmap(&self, range: VirtAddrRange) -> (r: Region)
        requires
            range.wf(),
        ensures
            r == (Region {
                request: Request::UnmapRegion {
                    va: range.start,
                    len: (range.end - range.start) as usize,
                },
                asked: false,
            }),
    {
        Region {
            request: Request::UnmapRegion { va: range.start, len: range.size() },
            asked: false,
        }
    }
}

/// Within the addresses that have a physical address without a wrap, addresses
/// and physical addresses are equally far apart.
pub proof fn law_linear_distance(b: LinearBackend, a: usize, c: usize)
    requires
        a <= c,
        b.reaches(a),
        b.reaches(c),
        signed(a) <= signed(c),
        signed(a) - b.offset >= 0 || signed(c) - b.offset < 0,
    ensures
        b.physical(c) - b.physical(a) == c - a,
{
}

} // verus!
