//! A verified storage and file-system layer for a small x86 kernel: MBR partition
//! tables, a block-device layer, FAT-16/32 and VSFS readers, an in-memory file
//! system, the per-process file table, and the pure parts of the ATA and PS/2
//! drivers.
pub mod assoc;
pub mod bytes;
pub mod block;
pub mod dev;
pub mod drivers;
pub mod filesys;
pub mod fs;
pub mod interrupts;
pub mod vfs;
