//! Resizing of ext filesystems at their front: a filesystem grows into the
//! sectors in front of it, or gives sectors up there, so its data is moved
//! within the file or device that holds it.

pub mod cli;
pub mod command;
pub mod device;
pub mod fs;
pub mod report;
pub mod text;
pub mod worker;
