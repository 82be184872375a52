//! A virtual file system that routes each path to the file system mounted at
//! the longest matching prefix, and a FAT-16 reader over a sector-addressed
//! disk.
pub mod disk_device;
pub mod fat;
pub mod structs;
