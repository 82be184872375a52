//! A block device that holds nothing: every read and write fails.
use vstd::prelude::*;

use crate::block::block_core::{BlockOp, BlockSector, BLOCK_SECTOR_SIZE};
use crate::block::block_error::BlockError;

verus! {

/// A block device that refuses every read and write; it stands in where a
/// device is needed but none may be used.
#[derive(Clone, Copy, Debug, PartialEq, Eq, Structural)]
pub struct DummyDevice;

impl DummyDevice {
    /// The dummy device.
    pub fn new() -> (r: Self)
        ensures
            r == DummyDevice,
    {
        DummyDevice
    }
}

impl BlockOp for DummyDevice {
    /// Every sector reads as zeros, as far as a specification can tell: no
    /// read succeeds.
    open spec fn sector_data(&self, s: BlockSector) -> Seq<u8> {
        Seq::new(BLOCK_SECTOR_SIZE as nat, |i: int| 0u8)
    }

    /// No sector reads.
    open spec fn sector_readable(&self, s: BlockSector) -> bool {
        false
    }

    fn read(&mut self, sector: BlockSector, buf: &mut [u8]) -> (r: Result<(), BlockError>)
        ensures
            r == Err::<(), BlockError>(BlockError::ReadError),
    {
        Err(BlockError::ReadError)
    }

    fn write(&mut self, sector: BlockSector, buf: &[u8]) -> (r: Result<(), BlockError>)
        ensures
            r == Err::<(), BlockError>(BlockError::WriteError),
    {
        Err(BlockError::WriteError)
    }
}

} // verus!
