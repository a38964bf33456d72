//! Mappings into address spaces: linear, private, of shared memory, and of files.
//!
//! The modules whose names end in `_law` state what the operations come to in a
//! [`space`] with a page table and memory in it.

pub mod backend;
pub mod backend_law;
pub mod cow;
pub mod cow_clone;
pub mod cow_clone_law;
pub mod cow_collapse;
pub mod cow_collapse_law;
pub mod cow_populate;
pub mod cow_populate_law;
pub mod cow_try;
pub mod cow_unmap_law;
pub mod demote_law;
pub mod dirty_law;
pub mod failure_law;
pub mod file;
pub mod file_collapse;
pub mod file_collapse_law;
pub mod file_populate;
pub mod file_try;
pub mod frames;
pub mod frames_law;
pub mod linear;
pub mod mapped_collapse_law;
pub mod mapped_count_law;
pub mod mapped_populate_law;
pub mod mapped_show_law;
pub mod mapped_unmap_law;
pub mod policy;
pub mod release_law;
pub mod scan;
pub mod scan_law;
pub mod shared;
pub mod shared_collapse;
pub mod shared_collapse_law;
pub mod shared_populate;
pub mod shared_try;
pub mod shared_unmap_law;
pub mod space;
pub mod try_law;
