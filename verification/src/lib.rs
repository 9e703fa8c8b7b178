//! The jbd2 journal and the inode layer of an ext4 filesystem.

pub mod bytes;
pub mod checksum;
pub mod error;
pub mod inode;
pub mod journal;
