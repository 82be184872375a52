//! An ATA disk, numbered across channels: bit 1 is the channel, bit 0 the
//! disk on it.
use vstd::prelude::*;

verus! {

/// An ATA disk: `2 * channel + device`.
#[derive(Clone, Copy, Debug, PartialEq, Eq, Structural)]
pub struct AtaDevice(pub u8);

impl AtaDevice {
    /// The channel the disk is on (bit 1).
    pub fn get_channel(&self) -> (r: u8)
        ensures
            r == (self.0 / 2) % 2,
    {
        let x = self.0;
        let r = (x >> 1) & 0x1;
        assert(r == (x / 2) % 2) by (bit_vector)
            requires
                r == (x >> 1) & 0x1,
        ;
        r
    }

    /// The disk's number on its channel (bit 0): 0 for the master, 1 for the slave.
    pub fn get_device_num(&self) -> (r: u8)
        ensures
            r == self.0 % 2,
    {
        let x = self.0;
        let r = x & 0x1;
        assert(r == x % 2) by (bit_vector)
            requires
                r == x & 0x1,
        ;
        r
    }
}

} // verus!
