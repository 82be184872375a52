//! An in-memory disk.
use crate::block::block_core::{BlockOp, BlockSector, BLOCK_SECTOR_SIZE};
use crate::block::block_error::BlockError;
use vstd::prelude::*;

verus! {

/// A disk held in memory: its sectors are consecutive runs of
/// `BLOCK_SECTOR_SIZE` bytes of `data`.
pub struct TempFs {
    pub data: Vec<u8>,
}

/// A sector of zeros.
pub open spec fn zero_sector() -> Seq<u8> {
    Seq::new(BLOCK_SECTOR_SIZE as nat, |i: int| 0u8)
}

impl TempFs {
    /// The number of whole sectors the disk holds.
    pub open spec fn sector_count(&self) -> nat {
        self.data@.len() / (BLOCK_SECTOR_SIZE as nat)
    }

    /// The bytes of sector `s`; a sector past the end reads as zeros.
    pub open spec fn sector(&self, s: int) -> Seq<u8> {
        if 0 <= s < self.sector_count() {
            self.data@.subrange(s * 512, s * 512 + 512)
        } else {
            zero_sector()
        }
    }

    /// A disk of `sectors` zeroed sectors.
    pub fn new(sectors: usize) -> (r: TempFs)
        requires
            sectors * 512 <= usize::MAX,
        ensures
            r.sector_count() == sectors,
            forall|s: int| 0 <= s < sectors ==> #[trigger] r.sector(s) == zero_sector(),
    {
        let data = vec![0u8; sectors * BLOCK_SECTOR_SIZE];
        proof {
            assert forall|s: int| 0 <= s < sectors implies #[trigger] data@.subrange(s * 512, s * 512 + 512)
                =~= zero_sector() by {
                assert(s * 512 + 512 <= sectors * 512) by (nonlinear_arith)
                    requires s < sectors;
            }
        }
        TempFs { data }
    }

    /// A disk holding `data`; a trailing partial sector is ignored.
    pub fn from_bytes(data: Vec<u8>) -> (r: TempFs)
        ensures
            r.data@ == data@,
    {
        TempFs { data }
    }

    /// The number of whole sectors the disk holds.
    pub fn num_sectors(&self) -> (r: usize)
        ensures
            r == self.sector_count(),
    {
        self.data.len() / BLOCK_SECTOR_SIZE
    }

    /// Copies sector `sector` into the first `BLOCK_SECTOR_SIZE` bytes of `buf`.
    pub fn read_sector(&self, sector: BlockSector, buf: &mut [u8])
        requires
            sector < self.sector_count(),
            old(buf)@.len() >= BLOCK_SECTOR_SIZE,
        ensures
            final(buf)@.len() == old(buf)@.len(),
            final(buf)@.subrange(0, 512) == self.sector(sector as int),
            final(buf)@.subrange(512, final(buf)@.len() as int) == old(buf)@.subrange(512, old(buf)@.len() as int),
    {
        let n = self.data.len();
        proof {
            assert(sector * 512 + 512 <= self.data@.len()) by (nonlinear_arith)
                requires sector < self.data@.len() / 512;
        }
        let base = sector as usize * BLOCK_SECTOR_SIZE;
        let mut i: usize = 0;
        while i < BLOCK_SECTOR_SIZE
            invariant
                base + 512 <= self.data@.len(),
                self.data@.len() <= usize::MAX,
                i <= 512,
                buf@.len() == old(buf)@.len(),
                old(buf)@.len() >= 512,
                forall|j: int| 0 <= j < i ==> buf@[j] == self.data@[base + j],
                forall|j: int| 512 <= j < buf@.len() ==> buf@[j] == old(buf)@[j],
            decreases 512 - i,
        {
            buf[i] = self.data[base + i];
            i = i + 1;
        }
        assert(buf@.subrange(0, 512) =~= self.sector(sector as int));
        assert(buf@.subrange(512, buf@.len() as int) =~= old(buf)@.subrange(512, old(buf)@.len() as int));
    }

    /// Copies the first `BLOCK_SECTOR_SIZE` bytes of `buf` into sector `sector`.
    pub fn write_sector(&mut self, sector: BlockSector, buf: &[u8])
        requires
            sector < old(self).sector_count(),
            buf@.len() >= BLOCK_SECTOR_SIZE,
        ensures
            final(self).data@.len() == old(self).data@.len(),
            final(self).sector(sector as int) == buf@.subrange(0, 512),
            forall|s: int| s != sector ==> #[trigger] final(self).sector(s) == old(self).sector(s),
    {
        let n = self.data.len();
        proof {
            assert(sector * 512 + 512 <= self.data@.len()) by (nonlinear_arith)
                requires sector < self.data@.len() / 512;
        }
        let base = sector as usize * BLOCK_SECTOR_SIZE;
        let mut i: usize = 0;
        while i < BLOCK_SECTOR_SIZE
            invariant
                base == sector * 512,
                base + 512 <= self.data@.len(),
                self.data@.len() <= usize::MAX,
                i <= 512,
                buf@.len() >= 512,
                self.data@.len() == old(self).data@.len(),
                forall|j: int| 0 <= j < i ==> self.data@[base + j] == buf@[j],
                forall|j: int|
                    0 <= j < self.data@.len() && !(base <= j < base + i) ==> self.data@[j] == old(self).data@[j],
            decreases 512 - i,
        {
            self.data.set(base + i, buf[i]);
            i = i + 1;
        }
        assert(self.sector(sector as int) =~= buf@.subrange(0, 512));
        assert forall|s: int| s != sector implies #[trigger] self.sector(s) == old(self).sector(s) by {
            if 0 <= s < self.sector_count() {
                assert(s * 512 + 512 <= base || base + 512 <= s * 512) by (nonlinear_arith)
                    requires base == sector * 512, s != sector;
                assert(self.sector(s) =~= old(self).sector(s));
            }
        }
    }
}

impl BlockOp for TempFs {
    open spec fn sector_data(&self, s: BlockSector) -> Seq<u8> {
        self.sector(s as int)
    }

    open spec fn sector_readable(&self, s: BlockSector) -> bool {
        s < self.sector_count()
    }

    fn read(&mut self, sector: BlockSector, buf: &mut [u8]) -> (r: Result<(), BlockError>) {
        if (sector as usize) < self.num_sectors() {
            self.read_sector(sector, buf);
            assert(buf@ =~= buf@.subrange(0, 512));
            Ok(())
        } else {
            Err(BlockError::SectorOutOfBounds)
        }
    }

    fn write(&mut self, sector: BlockSector, buf: &[u8]) -> (r: Result<(), BlockError>) {
        if (sector as usize) < self.num_sectors() {
            self.write_sector(sector, buf);
            assert(buf@ =~= buf@.subrange(0, 512));
            Ok(())
        } else {
            Err(BlockError::SectorOutOfBounds)
        }
    }
}

} // verus!
