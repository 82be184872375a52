//! Errors of block operations.
use vstd::prelude::*;

verus! {

/// Error type for block operations.
#[derive(Clone, Copy, Debug, PartialEq, Eq, Structural)]
pub enum BlockError {
    /// The sector is out of bounds (greater than the block size)
    SectorOutOfBounds,
    /// The buffer has an invalid size (not `BLOCK_SECTOR_SIZE`)
    BufferInvalid,
    /// Error reading from the disk
    ReadError,
    /// Error writing to the disk
    WriteError,
    /// No block device has the requested index
    DeviceNotFound,
}

/// The short name of each error.
pub open spec fn spec_block_error_name(e: BlockError) -> Seq<char> {
    match e {
        BlockError::SectorOutOfBounds => "SectorOutOfBounds"@,
        BlockError::BufferInvalid => "BufferInvalid"@,
        BlockError::ReadError => "ReadError"@,
        BlockError::WriteError => "WriteError"@,
        BlockError::DeviceNotFound => "DeviceNotFound"@,
    }
}

/// The human-readable description of each error.
pub open spec fn spec_block_error_description(e: BlockError) -> Seq<char> {
    match e {
        BlockError::SectorOutOfBounds => "Sector out of bounds (greater than the block size)"@,
        BlockError::BufferInvalid => "Invalid buffer size (not `BLOCK_SECTOR_SIZE`)"@,
        BlockError::ReadError => "Error reading from the block device"@,
        BlockError::WriteError => "Error writing to the block device"@,
        BlockError::DeviceNotFound => "No block device with that index"@,
    }
}

impl BlockError {
    /// The error's short name, as its `Debug` and `Display` forms print it.
    pub fn name(&self) -> (r: &'static str)
        ensures
            r@ == spec_block_error_name(*self),
    {
        match self {
            BlockError::SectorOutOfBounds => "SectorOutOfBounds",
            BlockError::BufferInvalid => "BufferInvalid",
            BlockError::ReadError => "ReadError",
            BlockError::WriteError => "WriteError",
            BlockError::DeviceNotFound => "DeviceNotFound",
        }
    }

    /// A longer description of the error.
    pub fn description(&self) -> (r: &'static str)
        ensures
            r@ == spec_block_error_description(*self),
    {
        match self {
            BlockError::SectorOutOfBounds => "Sector out of bounds (greater than the block size)",
            BlockError::BufferInvalid => "Invalid buffer size (not `BLOCK_SECTOR_SIZE`)",
            BlockError::ReadError => "Error reading from the block device",
            BlockError::WriteError => "Error writing to the block device",
            BlockError::DeviceNotFound => "No block device with that index",
        }
    }
}

} // verus!
