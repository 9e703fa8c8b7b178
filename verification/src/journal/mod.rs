//! The jbd2 journal: log format, commit, checkpoint and the journal's state.

pub mod access;
pub mod apply;
pub mod arrival;
pub mod blockmap;
pub mod chain;
pub mod checkpoint;
pub mod commit;
pub mod damage;
pub mod descriptor;
pub mod format;
pub mod geometry;
pub mod handles;
pub mod laws;
pub mod layouts;
pub mod memory;
pub mod plans;
pub mod prefix;
pub mod replay;
pub mod revoke;
pub mod state;
pub mod superblock;
pub mod tag;
pub mod targets;
pub mod tid;
pub mod transaction;
pub mod walk;
