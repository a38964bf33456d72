//! Places in a filesystem.

use vstd::prelude::*;
use crate::flags::NodeFlags;
use crate::text::same_text;

verus! {

/// What kind of node stands at a place.
#[derive(Debug, Clone, Copy, PartialEq, Eq, Structural)]
pub enum NodeType {
    Unknown,
    Fifo,
    CharacterDevice,
    Directory,
    BlockDevice,
    RegularFile,
    Symlink,
    Socket,
}

/// A place in a filesystem, and what is known of the node there.
#[derive(Debug, Clone, Copy, PartialEq, Eq, Structural)]
pub struct Location {
    /// The number by which the place is found again.
    pub id: u64,
    pub node_type: NodeType,
    pub flags: NodeFlags,
    /// Whether the filesystem keeps its files in memory only.
    pub in_memory: bool,
}

/// The name of the filesystem that keeps its files in memory only.
pub open spec fn memory_filesystem() -> Seq<char> {
    "tmpfs"@
}

impl Location {
    /// The place of a node in the filesystem of the given name.
    pub fn new(id: u64, node_type: NodeType, flags: NodeFlags, filesystem: &str) -> (r: Location)
        ensures
            r == (Location {
                id,
                node_type,
                flags,
                in_memory: filesystem@ == memory_filesystem(),
            }),
    {
        Location { id, node_type, flags, in_memory: same_text(filesystem, "tmpfs") }
    }

    /// Whether a directory stands there.
    #[verifier::allow_in_spec]
    pub fn is_dir(&self) -> (r: bool)
        returns
            self.node_type is Directory,
    {
        matches!(self.node_type, NodeType::Directory)
    }
}

} // verus!
