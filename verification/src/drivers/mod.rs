//! The pure parts of the device drivers: ATA register programming and
//! decisions, the keyboard's scancode handling, and the input buffer.
pub mod ata;
pub mod dummy_device;
pub mod input;
pub mod ps_2;
