//! The on-disk filesystem.

pub mod superblock;
