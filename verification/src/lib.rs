//! A page cache for files, and the mappings of files and of memory into address
//! spaces.
//!
//! The library decides; whoever uses it carries out what it asks for. See
//! [`effect`] for how the two talk.

pub mod addr;
pub mod effect;
pub mod error;
pub mod flags;
pub mod fs;
pub mod memory;
pub mod memory_law;
pub mod mm;
pub mod text;
