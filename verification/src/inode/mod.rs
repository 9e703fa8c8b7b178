//! Inodes: their bytes on disk, their content in memory, and how files are
//! written, resized, punched and synced.

pub mod content;
pub mod cuts;
pub mod desc;
pub mod device;
pub mod effects;
pub mod falloc;
pub mod fields;
pub mod laws;
pub mod links;
pub mod node;
pub mod ops;
pub mod raw;
pub mod resize;
pub mod runs;
pub mod spaces;
pub mod symlink;
pub mod sync;
pub mod time;
pub mod write;
