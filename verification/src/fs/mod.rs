//! Files that are read and written through a cache of their pages.
//!
//! The modules whose names end in `_law` state what the operations come to in a
//! [`world`] with a file and memory in it.

pub mod backend;
pub mod cache;
pub mod cache_law;
pub mod cached_file;
pub mod caches;
pub mod chunks;
pub mod dirty_law;
pub mod evict;
pub mod failure_law;
pub mod fetch;
pub mod fetch_law;
pub mod file;
pub mod file_law;
pub mod location;
pub mod merge;
pub mod merge_law;
pub mod notice_law;
pub mod open_law;
pub mod options;
pub mod page;
pub mod recency;
pub mod reclaim;
pub mod reclaim_law;
pub mod release_law;
pub mod resize;
pub mod resize_law;
pub mod split;
pub mod split_law;
pub mod sync;
pub mod sync_law;
pub mod transfer;
pub mod transfer_law;
pub mod world;
