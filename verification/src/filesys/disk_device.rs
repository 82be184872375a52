//! Sector-addressed disks that the FAT-16 reader reads from.
use vstd::prelude::*;

verus! {

/// The kind of a failed disk or file-system operation.
#[derive(Clone, Copy, Debug, PartialEq, Eq, Structural)]
pub enum IoErrorKind {
    /// The request itself is wrong (such as reading a directory as a file).
    InvalidInput,
    /// What was read from the disk does not make sense.
    InvalidData,
    /// The device failed or is not there.
    Other,
}

/// A failed disk or file-system operation: its kind and a description.
#[derive(Debug)]
pub struct IoError {
    pub kind: IoErrorKind,
    pub message: String,
}

impl IoError {
    /// An error of kind `kind` described by `msg`.
    pub fn new(kind: IoErrorKind, msg: &str) -> (r: IoError)
        ensures
            r.kind == kind,
            r.message@ == msg@,
    {
        IoError { kind, message: msg.to_owned() }
    }
}

/// What `buf` holds after a faithful read of the disk whose bytes are `disk`,
/// with sectors of `sector_size` bytes, from the start of sector `sector` on:
/// as many of the disk's bytes from there as `buf` takes, up to the disk's end,
/// and the rest of `buf` as it was.
pub open spec fn read_into(disk: Seq<u8>, sector_size: nat, buf: Seq<u8>, sector: int) -> Seq<u8> {
    let start = sector * sector_size;
    let n = read_length(disk, sector_size, buf.len() as int, sector);
    Seq::new(buf.len(), |i: int| if i < n { disk[start + i] } else { buf[i] })
}

/// How many bytes a faithful read into a buffer of `len` bytes from the start
/// of sector `sector` gets: `len`, or what is left of the disk if less.
pub open spec fn read_length(disk: Seq<u8>, sector_size: nat, len: int, sector: int) -> int {
    let start = sector * sector_size;
    if start >= disk.len() {
        0
    } else if len <= disk.len() - start {
        len
    } else {
        disk.len() - start
    }
}

/// A disk that reads whole sectors.
pub trait DiskDevice {
    /// The bytes the disk holds, from its first sector on.
    open spec fn disk_bytes(&self) -> Seq<u8> {
        Seq::empty()
    }

    /// The size of the disk's sectors in bytes.
    open spec fn sector_size(&self) -> nat {
        512
    }

    /// Whether every read gives the disk's bytes (see `read_into`). A disk
    /// that promises nothing of its reads leaves this false, as it is unless
    /// the disk says otherwise.
    open spec fn reads_faithfully(&self) -> bool {
        false
    }

    /// Read into `buf` the bytes of the disk from the start of sector `sector`
    /// on, and return how many were read.
    fn read_at(&self, buf: &mut [u8], sector: usize) -> (r: Result<usize, IoError>)
        ensures
            final(buf)@.len() == old(buf)@.len(),
            r matches Ok(n) ==> n <= old(buf)@.len(),
            self.reads_faithfully() ==> r == Ok::<usize, IoError>(
                read_length(self.disk_bytes(), self.sector_size(), old(buf)@.len() as int, sector as int) as usize,
            ) && final(buf)@ == read_into(self.disk_bytes(), self.sector_size(), old(buf)@, sector as int),
    ;
}

/// An IDE drive as a disk.
pub struct IDE {}

} // verus!
