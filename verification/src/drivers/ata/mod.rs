//! ATA (IDE) disks: channels and devices.
pub mod ata_channel;
pub mod ata_device;
pub mod ata_timer;
