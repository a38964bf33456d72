//! Bit sets: access rights of files, rights of mappings, properties of nodes
//! and of mapped areas.

use vstd::prelude::*;

verus! {

/// What an open file may be used for.
#[derive(Debug, Clone, Copy, PartialEq, Eq, Structural)]
pub struct FileFlags {
    pub bits: u8,
}

impl FileFlags {
    pub const READ: u8 = 1;

    pub const WRITE: u8 = 2;

    pub const EXECUTE: u8 = 4;

    pub const APPEND: u8 = 8;

    pub const PATH: u8 = 16;

    /// The set of the given bits.
    #[verifier::allow_in_spec]
    pub fn of(bits: u8) -> (r: FileFlags)
        returns
            (FileFlags { bits }),
    {
        FileFlags { bits }
    }

    /// The set without any flag.
    #[verifier::allow_in_spec]
    pub fn empty() -> (r: FileFlags)
        returns
            (FileFlags { bits: 0 }),
    {
        FileFlags { bits: 0 }
    }

    /// Whether every flag of `other` is in this set.
    #[verifier::allow_in_spec]
    pub fn contains(self, other: FileFlags) -> (r: bool)
        returns
            self.bits & other.bits == other.bits,
    {
        self.bits & other.bits == other.bits
    }

    /// The flags of both sets.
    #[verifier::allow_in_spec]
    pub fn union(self, other: FileFlags) -> (r: FileFlags)
        returns
            (FileFlags { bits: self.bits | other.bits }),
    {
        FileFlags { bits: self.bits | other.bits }
    }
}

/// What a mapped page may be used for.
#[derive(Debug, Clone, Copy, PartialEq, Eq, Structural)]
pub struct MappingFlags {
    pub bits: usize,
}

impl MappingFlags {
    pub const READ: usize = 1;

    pub const WRITE: usize = 2;

    pub const EXECUTE: usize = 4;

    pub const USER: usize = 8;

    pub const DEVICE: usize = 16;

    pub const UNCACHED: usize = 32;

    /// The set of the given bits.
    #[verifier::allow_in_spec]
    pub fn of(bits: usize) -> (r: MappingFlags)
        returns
            (MappingFlags { bits }),
    {
        MappingFlags { bits }
    }

    /// Whether every flag of `other` is in this set.
    #[verifier::allow_in_spec]
    pub fn contains(self, other: MappingFlags) -> (r: bool)
        returns
            self.bits & other.bits == other.bits,
    {
        self.bits & other.bits == other.bits
    }

    /// The flags of this set that are not in `other`.
    #[verifier::allow_in_spec]
    pub fn difference(self, other: MappingFlags) -> (r: MappingFlags)
        returns
            (MappingFlags { bits: self.bits & !other.bits }),
    {
        MappingFlags { bits: self.bits & !other.bits }
    }

    /// Whether the page may be written.
    #[verifier::allow_in_spec]
    pub fn writable(self) -> (r: bool)
        returns
            self.contains(MappingFlags { bits: MappingFlags::WRITE }),
    {
        self.contains(MappingFlags { bits: MappingFlags::WRITE })
    }

    /// The same rights but for writing.
    #[verifier::allow_in_spec]
    pub fn read_only(self) -> (r: MappingFlags)
        returns
            self.difference(MappingFlags { bits: MappingFlags::WRITE }),
    {
        self.difference(MappingFlags { bits: MappingFlags::WRITE })
    }
}

/// Properties of a mapped area.
#[derive(Debug, Clone, Copy, PartialEq, Eq, Structural)]
pub struct VmaFlags {
    pub bits: usize,
}

impl VmaFlags {
    /// Stack memory.
    pub const VM_STACK: usize = 0x0000_0100;

    /// Page ranges that are plain frame numbers.
    pub const VM_PFNMAP: usize = 0x0000_0400;

    /// Memory-mapped I/O or similar.
    pub const VM_IO: usize = 0x0000_4000;

    /// Cannot be expanded.
    pub const VM_DONTEXPAND: usize = 0x0004_0000;

    /// A mapping of pre-allocated huge pages.
    pub const VM_HUGETLB: usize = 0x0040_0000;

    /// Both tracked pages and plain frame numbers.
    pub const VM_MIXEDMAP: usize = 0x1000_0000;

    /// Advised to use huge pages.
    pub const VM_HUGEPAGE: usize = 0x2000_0000;

    /// Advised not to use huge pages.
    pub const VM_NOHUGEPAGE: usize = 0x4000_0000;

    /// The set of the given bits.
    #[verifier::allow_in_spec]
    pub fn of(bits: usize) -> (r: VmaFlags)
        returns
            (VmaFlags { bits }),
    {
        VmaFlags { bits }
    }

    /// The set without any flag.
    #[verifier::allow_in_spec]
    pub fn empty() -> (r: VmaFlags)
        returns
            (VmaFlags { bits: 0 }),
    {
        VmaFlags { bits: 0 }
    }

    /// Whether every flag of `other` is in this set.
    #[verifier::allow_in_spec]
    pub fn contains(self, other: VmaFlags) -> (r: bool)
        returns
            self.bits & other.bits == other.bits,
    {
        self.bits & other.bits == other.bits
    }

    /// The flags of both sets.
    #[verifier::allow_in_spec]
    pub fn union(self, other: VmaFlags) -> (r: VmaFlags)
        returns
            (VmaFlags { bits: self.bits | other.bits }),
    {
        VmaFlags { bits: self.bits | other.bits }
    }

    /// The flags of this set that are not in `other`.
    #[verifier::allow_in_spec]
    pub fn difference(self, other: VmaFlags) -> (r: VmaFlags)
        returns
            (VmaFlags { bits: self.bits & !other.bits }),
    {
        VmaFlags { bits: self.bits & !other.bits }
    }
}

/// Properties of a node of a filesystem.
#[derive(Debug, Clone, Copy, PartialEq, Eq, Structural)]
pub struct NodeFlags {
    pub bits: u32,
}

impl NodeFlags {
    /// The node behaves like a stream: it has no position.
    pub const STREAM: u32 = 1;

    /// The node should not be cached.
    pub const NON_CACHEABLE: u32 = 2;

    /// The node should always be cached.
    pub const ALWAYS_CACHE: u32 = 4;

    /// Operations on the node always block.
    pub const BLOCKING: u32 = 8;

    /// Whether every one of the given bits is set.
    #[verifier::allow_in_spec]
    pub fn contains(self, bits: u32) -> (r: bool)
        returns
            self.bits & bits == bits,
    {
        self.bits & bits == bits
    }
}

} // verus!
