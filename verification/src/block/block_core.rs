//! The block-device layer: block devices, their drivers, and the list of
//! registered devices.
use crate::block::block_error::BlockError;
use vstd::prelude::*;

verus! {

/// Size of a block device sector in bytes.
///
/// All IDE disks use this sector size, as do most USB and SCSI disks.
pub const BLOCK_SECTOR_SIZE: usize = 512;

/// Index of a block device sector.
pub type BlockSector = u32;

/// Types of blocks.
#[derive(Clone, Copy, Debug, PartialEq, Eq, Structural)]
pub enum BlockType {
    /// OS Kernel
    Kernel,
    /// File system
    FileSystem,
    /// Scratch
    Scratch,
    /// Swap
    Swap,
    /// "Raw" device with unidentified contents
    Raw,
    /// Owned by another operating system
    Foreign,
}

/// The display name of each block type.
pub open spec fn spec_block_type_name(t: BlockType) -> Seq<char> {
    match t {
        BlockType::Kernel => "Kernel"@,
        BlockType::FileSystem => "File System"@,
        BlockType::Scratch => "Scratch"@,
        BlockType::Swap => "Swap"@,
        BlockType::Raw => "Raw"@,
        BlockType::Foreign => "Foreign"@,
    }
}

impl BlockType {
    /// The name under which the block type is displayed.
    pub fn name(&self) -> (r: &'static str)
        ensures
            r@ == spec_block_type_name(*self),
    {
        match self {
            BlockType::Kernel => "Kernel",
            BlockType::FileSystem => "File System",
            BlockType::Scratch => "Scratch",
            BlockType::Swap => "Swap",
            BlockType::Raw => "Raw",
            BlockType::Foreign => "Foreign",
        }
    }
}

/// Lower-level interface to block device drivers.
///
/// A driver is modelled by the bytes each sector holds.
pub trait BlockOp {
    /// The bytes that sector `s` holds.
    spec fn sector_data(&self, s: BlockSector) -> Seq<u8>;

    /// Whether sector `s` is known to read without error. A device that
    /// promises nothing of its reads leaves this false.
    spec fn sector_readable(&self, s: BlockSector) -> bool;

    /// Read a block sector into `buf`.
    fn read(&mut self, sector: BlockSector, buf: &mut [u8]) -> (r: Result<(), BlockError>)
        requires
            old(buf)@.len() == BLOCK_SECTOR_SIZE,
        ensures
            final(buf)@.len() == BLOCK_SECTOR_SIZE,
            forall|s: BlockSector| #[trigger] final(self).sector_data(s) == old(self).sector_data(s),
            forall|s: BlockSector| #[trigger] final(self).sector_readable(s) == old(self).sector_readable(s),
            r is Ok ==> final(buf)@ == old(self).sector_data(sector),
            old(self).sector_readable(sector) ==> r is Ok,
    ;

    /// Write a block sector from `buf`.
    fn write(&mut self, sector: BlockSector, buf: &[u8]) -> (r: Result<(), BlockError>)
        requires
            buf@.len() == BLOCK_SECTOR_SIZE,
        ensures
            r is Ok ==> final(self).sector_data(sector) == buf@,
            forall|s: BlockSector|
                s != sector ==> #[trigger] final(self).sector_data(s) == old(self).sector_data(s),
            forall|s: BlockSector| #[trigger] final(self).sector_readable(s) == old(self).sector_readable(s),
    ;
}

/// A partition of another registered block device: it starts at sector `start`
/// of the device with index `block_idx`.
#[derive(Clone, Copy, Debug, PartialEq, Eq, Structural)]
pub struct Partition {
    pub block_idx: usize,
    pub start: BlockSector,
}

/// What a block reads and writes through: its own driver, or a range of
/// another registered block.
pub enum BlockDriver<D> {
    Device(D),
    Partition(Partition),
}

/// A block device.
///
/// **Note:** Once blocks are made they are immutable, but for their counters.
pub struct Block<D> {
    /// Unique and immutable index of the block
    pub index: usize,
    /// The name of the block device
    pub block_name: String,
    /// The type of block
    pub block_type: BlockType,
    /// The block driver
    pub driver: BlockDriver<D>,
    /// The size of the block device in sectors
    pub block_size: BlockSector,
    /// The read count
    pub read_count: u32,
    /// The write count
    pub write_count: u32,
}

/// The next value of a wrapping 32-bit counter.
pub open spec fn next_count(c: u32) -> u32 {
    if c == u32::MAX { 0 } else { (c + 1) as u32 }
}

impl<D: BlockOp> Block<D> {
    /// Whether this block reads through its own driver.
    pub open spec fn is_device(&self) -> bool {
        self.driver is Device
    }

    /// The bytes of sector `s` of a device block.
    pub open spec fn device_sector(&self, s: BlockSector) -> Seq<u8> {
        match self.driver {
            BlockDriver::Device(d) => d.sector_data(s),
            BlockDriver::Partition(_) => Seq::empty(),
        }
    }

    /// Whether sector `s` of a device block is known to read without error.
    pub open spec fn device_readable(&self, s: BlockSector) -> bool {
        match self.driver {
            BlockDriver::Device(d) => d.sector_readable(s),
            BlockDriver::Partition(_) => false,
        }
    }

    /// Everything of the block but its driver's contents and its counters.
    pub open spec fn same_identity(&self, other: &Self) -> bool {
        &&& self.index == other.index
        &&& self.block_name@ == other.block_name@
        &&& self.block_type == other.block_type
        &&& self.block_size == other.block_size
        &&& self.is_device() == other.is_device()
        &&& (self.driver matches BlockDriver::Partition(p) ==> other.driver == BlockDriver::<D>::Partition(p))
    }

    /// Verifies that `buf` is a valid buffer for reading or writing a block sector.
    fn is_buffer_valid(buf: &[u8]) -> (r: bool)
        ensures
            r == (buf@.len() == BLOCK_SECTOR_SIZE),
    {
        buf.len() == BLOCK_SECTOR_SIZE
    }

    /// Verifies that `sector` is a valid offset within the block device.
    fn is_sector_valid(&self, sector: BlockSector) -> (r: bool)
        ensures
            r == (sector < self.block_size),
    {
        sector < self.block_size
    }

    /// Reads sector `sector` from a device block into `buf`, which must have room
    /// for `BLOCK_SECTOR_SIZE` bytes. (A partition block is read through
    /// [`BlockManager::read`].)
    pub fn read(&mut self, sector: BlockSector, buf: &mut [u8]) -> (r: Result<(), BlockError>)
        requires
            old(self).is_device(),
        ensures
            final(self).same_identity(old(self)),
            final(self).write_count == old(self).write_count,
            final(buf)@.len() == old(buf)@.len(),
            forall|s: BlockSector| #[trigger] final(self).device_sector(s) == old(self).device_sector(s),
            forall|s: BlockSector| #[trigger] final(self).device_readable(s) == old(self).device_readable(s),
            sector >= old(self).block_size ==> r == Err::<(), BlockError>(BlockError::SectorOutOfBounds)
                && final(self).read_count == old(self).read_count,
            sector < old(self).block_size && old(buf)@.len() != BLOCK_SECTOR_SIZE ==> r == Err::<(), BlockError>(
                BlockError::BufferInvalid) && final(self).read_count == old(self).read_count,
            sector < old(self).block_size && old(buf)@.len() == BLOCK_SECTOR_SIZE ==> final(self).read_count
                == next_count(old(self).read_count),
            r is Ok ==> final(buf)@ == old(self).device_sector(sector),
            sector < old(self).block_size && old(buf)@.len() == BLOCK_SECTOR_SIZE && old(self).device_readable(sector)
                ==> r is Ok,
    {
        if !self.is_sector_valid(sector) {
            return Err(BlockError::SectorOutOfBounds);
        }
        if !Self::is_buffer_valid(buf) {
            return Err(BlockError::BufferInvalid);
        }
        self.read_count = self.read_count.wrapping_add(1);
        match &mut self.driver {
            BlockDriver::Device(d) => d.read(sector, buf),
            BlockDriver::Partition(_) => Err(BlockError::DeviceNotFound),
        }
    }

    /// Writes sector `sector` of a device block from `buf`, which must contain
    /// `BLOCK_SECTOR_SIZE` bytes. Writing a valid sector of a foreign block is not
    /// allowed.
    pub fn write(&mut self, sector: BlockSector, buf: &[u8]) -> (r: Result<(), BlockError>)
        requires
            old(self).is_device(),
            sector < old(self).block_size && buf@.len() == BLOCK_SECTOR_SIZE ==> old(self).block_type
                != BlockType::Foreign,
        ensures
            final(self).same_identity(old(self)),
            final(self).read_count == old(self).read_count,
            forall|s: BlockSector|
                s != sector ==> #[trigger] final(self).device_sector(s) == old(self).device_sector(s),
            forall|s: BlockSector| #[trigger] final(self).device_readable(s) == old(self).device_readable(s),
            sector >= old(self).block_size ==> r == Err::<(), BlockError>(BlockError::SectorOutOfBounds)
                && final(self).write_count == old(self).write_count
                && final(self).device_sector(sector) == old(self).device_sector(sector),
            sector < old(self).block_size && buf@.len() != BLOCK_SECTOR_SIZE ==> r == Err::<(), BlockError>(
                BlockError::BufferInvalid) && final(self).write_count == old(self).write_count
                && final(self).device_sector(sector) == old(self).device_sector(sector),
            sector < old(self).block_size && buf@.len() == BLOCK_SECTOR_SIZE ==> final(self).write_count
                == next_count(old(self).write_count),
            r is Ok ==> final(self).device_sector(sector) == buf@,
    {
        if !self.is_sector_valid(sector) {
            return Err(BlockError::SectorOutOfBounds);
        }
        if !Self::is_buffer_valid(buf) {
            return Err(BlockError::BufferInvalid);
        }
        self.write_count = self.write_count.wrapping_add(1);
        match &mut self.driver {
            BlockDriver::Device(d) => d.write(sector, buf),
            BlockDriver::Partition(_) => Err(BlockError::DeviceNotFound),
        }
    }

    pub fn get_type(&self) -> (r: BlockType)
        ensures
            r == self.block_type,
    {
        self.block_type
    }

    pub fn get_size(&self) -> (r: BlockSector)
        ensures
            r == self.block_size,
    {
        self.block_size
    }

    pub fn get_name(&self) -> (r: &str)
        ensures
            r@ == self.block_name@,
    {
        self.block_name.as_str()
    }

    pub fn get_index(&self) -> (r: usize)
        ensures
            r == self.index,
    {
        self.index
    }

    pub fn get_read_count(&self) -> (r: u32)
        ensures
            r == self.read_count,
    {
        self.read_count
    }

    pub fn get_write_count(&self) -> (r: u32)
        ensures
            r == self.write_count,
    {
        self.write_count
    }
}

/// Maintains a list of blocks.
pub struct BlockManager<D> {
    /// All the block devices
    pub all_blocks: Vec<Block<D>>,
    /// The index the next registered block gets
    pub max_index: usize,
}

/// The bytes of sector `s` of block `idx` of `blocks`, following partitions down
/// to the device that holds them.
pub open spec fn block_sector_data<D: BlockOp>(blocks: Seq<Block<D>>, idx: int, s: int) -> Seq<u8>
    decreases idx,
{
    if 0 <= idx < blocks.len() {
        match blocks[idx].driver {
            BlockDriver::Device(d) => if 0 <= s <= u32::MAX { d.sector_data(s as u32) } else { Seq::empty() },
            BlockDriver::Partition(p) => if p.block_idx < idx {
                block_sector_data(blocks, p.block_idx as int, s + p.start)
            } else {
                Seq::empty()
            },
        }
    } else {
        Seq::empty()
    }
}

/// Whether sector `s` of block `idx` of `blocks` is known to read without
/// error: it lies within the block, and within each block on the way down
/// to the device, whose driver promises that sector.
pub open spec fn block_sector_readable<D: BlockOp>(blocks: Seq<Block<D>>, idx: int, s: int) -> bool
    decreases idx,
{
    &&& 0 <= idx < blocks.len()
    &&& 0 <= s < blocks[idx].block_size
    &&& match blocks[idx].driver {
        BlockDriver::Device(d) => d.sector_readable(s as u32),
        BlockDriver::Partition(p) => p.block_idx < idx && s + p.start <= u32::MAX && block_sector_readable(
            blocks,
            p.block_idx as int,
            s + p.start,
        ),
    }
}

/// Whether a valid write to block `idx` never reaches a foreign block.
pub open spec fn writable<D: BlockOp>(blocks: Seq<Block<D>>, idx: int) -> bool
    decreases idx,
{
    if 0 <= idx < blocks.len() {
        &&& blocks[idx].block_type != BlockType::Foreign
        &&& match blocks[idx].driver {
            BlockDriver::Device(_) => true,
            BlockDriver::Partition(p) => p.block_idx < idx ==> writable(blocks, p.block_idx as int),
        }
    } else {
        true
    }
}

/// The name, type and size of a registered block, and where its data lives.
pub struct BlockInfo {
    pub name: Seq<char>,
    pub block_type: BlockType,
    pub size: BlockSector,
    pub partition: Option<Partition>,
}

impl<D: BlockOp> BlockManager<D> {
    /// The manager's invariant: each block knows its own index, and a partition
    /// lies on a block registered before it.
    pub open spec fn wf(&self) -> bool {
        &&& self.max_index == self.all_blocks@.len()
        &&& forall|i: int| 0 <= i < self.all_blocks@.len() ==> #[trigger] self.all_blocks@[i].index == i
        &&& forall|i: int|
            0 <= i < self.all_blocks@.len() ==> (#[trigger] self.all_blocks@[i].driver matches BlockDriver::Partition(p)
                ==> p.block_idx < i)
    }

    /// The registered blocks, by index.
    pub open spec fn infos(&self) -> Seq<BlockInfo> {
        Seq::new(
            self.all_blocks@.len(),
            |i: int|
                BlockInfo {
                    name: self.all_blocks@[i].block_name@,
                    block_type: self.all_blocks@[i].block_type,
                    size: self.all_blocks@[i].block_size,
                    partition: match self.all_blocks@[i].driver {
                        BlockDriver::Device(_) => None,
                        BlockDriver::Partition(p) => Some(p),
                    },
                },
        )
    }

    /// The bytes of sector `s` of block `idx`.
    pub open spec fn sector_data(&self, idx: int, s: int) -> Seq<u8> {
        block_sector_data(self.all_blocks@, idx, s)
    }

    /// Whether sector `s` of block `idx` is known to read without error.
    pub open spec fn sector_readable(&self, idx: int, s: int) -> bool {
        block_sector_readable(self.all_blocks@, idx, s)
    }

    /// Create a new block manager.
    pub fn new() -> (r: Self)
        ensures
            r.wf(),
            r.all_blocks@.len() == 0,
    {
        BlockManager::with_capacity(10)
    }

    /// Create a new block manager with a given capacity.
    pub fn with_capacity(cap: usize) -> (r: Self)
        ensures
            r.wf(),
            r.all_blocks@.len() == 0,
    {
        BlockManager { all_blocks: Vec::with_capacity(cap), max_index: 0 }
    }

    /// The number of registered blocks.
    pub fn len(&self) -> (r: usize)
        requires
            self.wf(),
        ensures
            r == self.all_blocks@.len(),
    {
        self.all_blocks.len()
    }

    /// Register a block device with the given `block_name`. The block device's
    /// size in sectors and its type must be provided, as well as the driver to
    /// access the block. A partition must lie on a block registered before.
    ///
    /// Returns the index of the block device.
    pub fn register_block(
        &mut self,
        block_type: BlockType,
        block_name: &str,
        block_size: BlockSector,
        driver: BlockDriver<D>,
    ) -> (idx: usize)
        requires
            old(self).wf(),
            old(self).all_blocks@.len() < usize::MAX,
            driver matches BlockDriver::Partition(p) ==> p.block_idx < old(self).all_blocks@.len(),
        ensures
            final(self).wf(),
            idx == old(self).all_blocks@.len(),
            final(self).all_blocks@.len() == idx + 1,
            forall|i: int| 0 <= i < idx ==> #[trigger] final(self).all_blocks@[i] == old(self).all_blocks@[i],
            final(self).all_blocks@[idx as int].block_name@ == block_name@,
            final(self).all_blocks@[idx as int].block_type == block_type,
            final(self).all_blocks@[idx as int].block_size == block_size,
            final(self).all_blocks@[idx as int].driver == driver,
            final(self).all_blocks@[idx as int].read_count == 0,
            final(self).all_blocks@[idx as int].write_count == 0,
    {
        let idx = self.max_index;
        self.all_blocks.push(
            Block {
                index: idx,
                block_name: block_name.to_owned(),
                block_type,
                driver,
                block_size,
                read_count: 0,
                write_count: 0,
            },
        );
        self.max_index = idx + 1;
        idx
    }

    /// Get the block device with the given `idx`.
    ///
    /// If the index is out of bounds, returns `None`.
    pub fn by_id(&self, idx: usize) -> (r: Option<&Block<D>>)
        requires
            self.wf(),
        ensures
            idx < self.all_blocks@.len() ==> r == Some(&self.all_blocks@[idx as int]),
            idx >= self.all_blocks@.len() ==> r is None,
    {
        if idx < self.all_blocks.len() {
            Some(&self.all_blocks[idx])
        } else {
            None
        }
    }

    /// Get the first block device with the given `name`.
    ///
    /// If the name is not found, returns `None`.
    pub fn by_name(&self, name: &str) -> (r: Option<&Block<D>>)
        requires
            self.wf(),
        ensures
            match r {
                Some(b) => exists|i: int|
                    0 <= i < self.all_blocks@.len() && b == &self.all_blocks@[i] && self.all_blocks@[i].block_name@
                        == name@ && forall|j: int| 0 <= j < i ==> self.all_blocks@[j].block_name@ != name@,
                None => forall|i: int|
                    0 <= i < self.all_blocks@.len() ==> #[trigger] self.all_blocks@[i].block_name@ != name@,
            },
    {
        let mut i: usize = 0;
        while i < self.all_blocks.len()
            invariant
                i <= self.all_blocks@.len(),
                forall|j: int| 0 <= j < i ==> #[trigger] self.all_blocks@[j].block_name@ != name@,
            decreases self.all_blocks@.len() - i,
        {
            if crate::bytes::str_eq(self.all_blocks[i].block_name.as_str(), name) {
                return Some(&self.all_blocks[i]);
            }
            i = i + 1;
        }
        None
    }

    /// Reads sector `sector` of block `idx` into `buf`, following partitions down
    /// to the device that holds them. Each block on the way counts the read.
    pub fn read(&mut self, idx: usize, sector: BlockSector, buf: &mut [u8]) -> (r: Result<(), BlockError>)
        requires
            old(self).wf(),
        ensures
            final(self).wf(),
            final(self).infos() == old(self).infos(),
            final(buf)@.len() == old(buf)@.len(),
            forall|i: int, s: int| #[trigger] final(self).sector_data(i, s) == old(self).sector_data(i, s),
            idx >= old(self).all_blocks@.len() ==> r == Err::<(), BlockError>(BlockError::DeviceNotFound),
            idx < old(self).all_blocks@.len() && sector >= old(self).all_blocks@[idx as int].block_size ==> r
                == Err::<(), BlockError>(BlockError::SectorOutOfBounds),
            idx < old(self).all_blocks@.len() && sector < old(self).all_blocks@[idx as int].block_size
                && old(buf)@.len() != BLOCK_SECTOR_SIZE ==> r == Err::<(), BlockError>(BlockError::BufferInvalid),
            r is Ok ==> final(buf)@ == old(self).sector_data(idx as int, sector as int),
            forall|i: int, s: int| #[trigger] final(self).sector_readable(i, s) == old(self).sector_readable(i, s),
            old(buf)@.len() == BLOCK_SECTOR_SIZE && old(self).sector_readable(idx as int, sector as int) ==> r is Ok,
        decreases idx,
    {
        if idx >= self.all_blocks.len() {
            return Err(BlockError::DeviceNotFound);
        }
        let ghost old_blocks = self.all_blocks@;
        let size = self.all_blocks[idx].block_size;
        if sector >= size {
            return Err(BlockError::SectorOutOfBounds);
        }
        if buf.len() != BLOCK_SECTOR_SIZE {
            return Err(BlockError::BufferInvalid);
        }
        let part = match &self.all_blocks[idx].driver {
            BlockDriver::Device(_) => None,
            BlockDriver::Partition(p) => Some(*p),
        };
        match part {
            None => {
                let mut b = self.all_blocks.remove(idx);
                let r = b.read(sector, buf);
                self.all_blocks.insert(idx, b);
                proof {
                    assert(self.all_blocks@ =~= old_blocks.update(idx as int, b));
                    self.lemma_update_device(old_blocks, idx as int);
                }
                r
            },
            Some(p) => {
                let mut b = self.all_blocks.remove(idx);
                b.read_count = b.read_count.wrapping_add(1);
                self.all_blocks.insert(idx, b);
                proof {
                    assert(self.all_blocks@ =~= old_blocks.update(idx as int, b));
                    self.lemma_update_device(old_blocks, idx as int);
                }
                match sector.checked_add(p.start) {
                    Some(s) => self.read(p.block_idx, s, buf),
                    None => Err(BlockError::SectorOutOfBounds),
                }
            },
        }
    }

    /// Writes sector `sector` of block `idx` from `buf`, following partitions
    /// down to the device that holds them. Each block on the way counts the write.
    pub fn write(&mut self, idx: usize, sector: BlockSector, buf: &[u8]) -> (r: Result<(), BlockError>)
        requires
            old(self).wf(),
            writable(old(self).all_blocks@, idx as int),
        ensures
            final(self).wf(),
            final(self).infos() == old(self).infos(),
            idx >= old(self).all_blocks@.len() ==> r == Err::<(), BlockError>(BlockError::DeviceNotFound),
            idx < old(self).all_blocks@.len() && sector >= old(self).all_blocks@[idx as int].block_size ==> r
                == Err::<(), BlockError>(BlockError::SectorOutOfBounds),
            idx < old(self).all_blocks@.len() && sector < old(self).all_blocks@[idx as int].block_size
                && buf@.len() != BLOCK_SECTOR_SIZE ==> r == Err::<(), BlockError>(BlockError::BufferInvalid),
            r is Ok ==> final(self).sector_data(idx as int, sector as int) == buf@,
        decreases idx,
    {
        if idx >= self.all_blocks.len() {
            return Err(BlockError::DeviceNotFound);
        }
        let ghost old_blocks = self.all_blocks@;
        let size = self.all_blocks[idx].block_size;
        if sector >= size {
            return Err(BlockError::SectorOutOfBounds);
        }
        if buf.len() != BLOCK_SECTOR_SIZE {
            return Err(BlockError::BufferInvalid);
        }
        let part = match &self.all_blocks[idx].driver {
            BlockDriver::Device(_) => None,
            BlockDriver::Partition(p) => Some(*p),
        };
        match part {
            None => {
                let mut b = self.all_blocks.remove(idx);
                let r = b.write(sector, buf);
                self.all_blocks.insert(idx, b);
                proof {
                    assert(self.all_blocks@ =~= old_blocks.update(idx as int, b));
                    self.lemma_written_device(old_blocks, idx as int);
                }
                r
            },
            Some(p) => {
                let mut b = self.all_blocks.remove(idx);
                b.write_count = b.write_count.wrapping_add(1);
                self.all_blocks.insert(idx, b);
                proof {
                    assert(self.all_blocks@ =~= old_blocks.update(idx as int, b));
                    self.lemma_update_device(old_blocks, idx as int);
                    assert(writable(self.all_blocks@, p.block_idx as int)) by {
                        self.lemma_writable_unchanged(old_blocks, idx as int, p.block_idx as int);
                    }
                }
                match sector.checked_add(p.start) {
                    Some(s) => {
                        let r = self.write(p.block_idx, s, buf);
                        proof {
                            if r is Ok {
                                assert(self.infos()[idx as int].partition == Some(p));
                                assert(self.all_blocks@[idx as int].driver == BlockDriver::<D>::Partition(p));
                            }
                        }
                        r
                    },
                    None => Err(BlockError::SectorOutOfBounds),
                }
            },
        }
    }

    proof fn lemma_update_device(&self, old_blocks: Seq<Block<D>>, idx: int)
        requires
            0 <= idx < old_blocks.len(),
            self.all_blocks@.len() == old_blocks.len(),
            forall|i: int| 0 <= i < old_blocks.len() && i != idx ==> self.all_blocks@[i] == old_blocks[i],
            self.all_blocks@[idx].same_identity(&old_blocks[idx]),
            forall|s: BlockSector| #[trigger] self.all_blocks@[idx].device_sector(s) == old_blocks[idx].device_sector(s),
            forall|s: BlockSector| #[trigger] self.all_blocks@[idx].device_readable(s) == old_blocks[idx].device_readable(s),
            self.max_index == old_blocks.len(),
            forall|i: int| 0 <= i < old_blocks.len() ==> #[trigger] old_blocks[i].index == i,
            forall|i: int|
                0 <= i < old_blocks.len() ==> (#[trigger] old_blocks[i].driver matches BlockDriver::Partition(p)
                    ==> p.block_idx < i),
        ensures
            self.wf(),
            forall|i: int, s: int| #[trigger] block_sector_data(self.all_blocks@, i, s) == block_sector_data(old_blocks, i, s),
            forall|i: int, s: int| #[trigger] block_sector_readable(self.all_blocks@, i, s) == block_sector_readable(old_blocks, i, s),
            self.infos() =~= Seq::new(
                old_blocks.len(),
                |i: int|
                    BlockInfo {
                        name: old_blocks[i].block_name@,
                        block_type: old_blocks[i].block_type,
                        size: old_blocks[i].block_size,
                        partition: match old_blocks[i].driver {
                            BlockDriver::Device(_) => None,
                            BlockDriver::Partition(p) => Some(p),
                        },
                    },
            ),
    {
        assert forall|i: int| 0 <= i < self.all_blocks@.len() implies #[trigger] self.all_blocks@[i].index == i by {
            assert(old_blocks[i].index == i);
        }
        assert forall|i: int|
            0 <= i < self.all_blocks@.len() implies (#[trigger] self.all_blocks@[i].driver matches BlockDriver::Partition(p)
                ==> p.block_idx < i) by {
            assert(old_blocks[i].driver matches BlockDriver::Partition(p) ==> p.block_idx < i);
        }
        assert forall|i: int, s: int| #[trigger] block_sector_data(self.all_blocks@, i, s) == block_sector_data(old_blocks, i, s) by {
            self.lemma_sector_data_same(old_blocks, idx, i, s);
        }
        assert forall|i: int, s: int| #[trigger] block_sector_readable(self.all_blocks@, i, s) == block_sector_readable(old_blocks, i, s) by {
            self.lemma_sector_readable_same(old_blocks, idx, i, s);
        }
    }

    proof fn lemma_sector_readable_same(&self, old_blocks: Seq<Block<D>>, idx: int, i: int, s: int)
        requires
            0 <= idx < old_blocks.len(),
            self.all_blocks@.len() == old_blocks.len(),
            forall|j: int| 0 <= j < old_blocks.len() && j != idx ==> self.all_blocks@[j] == old_blocks[j],
            self.all_blocks@[idx].same_identity(&old_blocks[idx]),
            forall|t: BlockSector| #[trigger] self.all_blocks@[idx].device_readable(t) == old_blocks[idx].device_readable(t),
        ensures
            block_sector_readable(self.all_blocks@, i, s) == block_sector_readable(old_blocks, i, s),
        decreases i,
    {
        if 0 <= i < old_blocks.len() {
            match old_blocks[i].driver {
                BlockDriver::Device(d) => {
                    if i == idx && 0 <= s <= u32::MAX {
                        assert(self.all_blocks@[idx].device_readable(s as u32) == old_blocks[idx].device_readable(s as u32));
                    }
                },
                BlockDriver::Partition(p) => {
                    if i == idx {
                        assert(self.all_blocks@[idx].driver == BlockDriver::<D>::Partition(p));
                    }
                    if p.block_idx < i {
                        self.lemma_sector_readable_same(old_blocks, idx, p.block_idx as int, s + p.start);
                    }
                },
            }
        }
    }

    proof fn lemma_sector_data_same(&self, old_blocks: Seq<Block<D>>, idx: int, i: int, s: int)
        requires
            0 <= idx < old_blocks.len(),
            self.all_blocks@.len() == old_blocks.len(),
            forall|j: int| 0 <= j < old_blocks.len() && j != idx ==> self.all_blocks@[j] == old_blocks[j],
            self.all_blocks@[idx].same_identity(&old_blocks[idx]),
            forall|t: BlockSector| #[trigger] self.all_blocks@[idx].device_sector(t) == old_blocks[idx].device_sector(t),
        ensures
            block_sector_data(self.all_blocks@, i, s) == block_sector_data(old_blocks, i, s),
        decreases i,
    {
        if 0 <= i < old_blocks.len() {
            match old_blocks[i].driver {
                BlockDriver::Device(d) => {
                    if i == idx && 0 <= s <= u32::MAX {
                        assert(self.all_blocks@[idx].device_sector(s as u32) == old_blocks[idx].device_sector(s as u32));
                    }
                },
                BlockDriver::Partition(p) => {
                    if p.block_idx < i {
                        self.lemma_sector_data_same(old_blocks, idx, p.block_idx as int, s + p.start);
                    }
                },
            }
        }
    }

    proof fn lemma_written_device(&self, old_blocks: Seq<Block<D>>, idx: int)
        requires
            0 <= idx < old_blocks.len(),
            self.all_blocks@.len() == old_blocks.len(),
            forall|i: int| 0 <= i < old_blocks.len() && i != idx ==> self.all_blocks@[i] == old_blocks[i],
            self.all_blocks@[idx].same_identity(&old_blocks[idx]),
            self.all_blocks@[idx].is_device(),
            self.max_index == old_blocks.len(),
            forall|i: int| 0 <= i < old_blocks.len() ==> #[trigger] old_blocks[i].index == i,
            forall|i: int|
                0 <= i < old_blocks.len() ==> (#[trigger] old_blocks[i].driver matches BlockDriver::Partition(p)
                    ==> p.block_idx < i),
        ensures
            self.wf(),
            self.infos() =~= Seq::new(
                old_blocks.len(),
                |i: int|
                    BlockInfo {
                        name: old_blocks[i].block_name@,
                        block_type: old_blocks[i].block_type,
                        size: old_blocks[i].block_size,
                        partition: match old_blocks[i].driver {
                            BlockDriver::Device(_) => None,
                            BlockDriver::Partition(p) => Some(p),
                        },
                    },
            ),
    {
        assert forall|i: int| 0 <= i < self.all_blocks@.len() implies #[trigger] self.all_blocks@[i].index == i by {
            assert(old_blocks[i].index == i);
        }
        assert forall|i: int|
            0 <= i < self.all_blocks@.len() implies (#[trigger] self.all_blocks@[i].driver matches BlockDriver::Partition(p)
                ==> p.block_idx < i) by {
            assert(old_blocks[i].driver matches BlockDriver::Partition(p) ==> p.block_idx < i);
        }
    }

    proof fn lemma_writable_unchanged(&self, old_blocks: Seq<Block<D>>, idx: int, j: int)
        requires
            0 <= idx < old_blocks.len(),
            self.all_blocks@.len() == old_blocks.len(),
            forall|i: int| 0 <= i < old_blocks.len() && i != idx ==> self.all_blocks@[i] == old_blocks[i],
            self.all_blocks@[idx].same_identity(&old_blocks[idx]),
            writable(old_blocks, j),
        ensures
            writable(self.all_blocks@, j),
        decreases j,
    {
        if 0 <= j < old_blocks.len() {
            match old_blocks[j].driver {
                BlockDriver::Device(_) => {},
                BlockDriver::Partition(p) => {
                    if p.block_idx < j {
                        self.lemma_writable_unchanged(old_blocks, idx, p.block_idx as int);
                    }
                },
            }
        }
    }
}

/// Whether a write reaches a foreign block depends only on the registered
/// blocks' descriptions.
pub proof fn lemma_writable_by_infos<D: BlockOp>(a: &BlockManager<D>, b: &BlockManager<D>, idx: int)
    requires
        a.infos() == b.infos(),
    ensures
        writable(a.all_blocks@, idx) == writable(b.all_blocks@, idx),
    decreases idx,
{
    assert(a.infos().len() == a.all_blocks@.len());
    assert(b.infos().len() == b.all_blocks@.len());
    if 0 <= idx < a.all_blocks@.len() {
        assert(a.infos().len() == b.infos().len());
        assert(a.infos()[idx] == b.infos()[idx]);
        assert(a.infos().len() == a.all_blocks@.len());
        assert(b.infos().len() == b.all_blocks@.len());
        assert(a.all_blocks@.len() == b.all_blocks@.len());
        assert(a.infos()[idx].block_type == a.all_blocks@[idx].block_type);
        assert(b.infos()[idx].block_type == b.all_blocks@[idx].block_type);
        match a.all_blocks@[idx].driver {
            BlockDriver::Device(_) => {
                assert(b.infos()[idx].partition is None);
                assert(b.all_blocks@[idx].driver is Device);
            },
            BlockDriver::Partition(p) => {
                assert(b.infos()[idx].partition == Some(p));
                assert(b.all_blocks@[idx].driver == BlockDriver::<D>::Partition(p));
                if p.block_idx < idx {
                    lemma_writable_by_infos(a, b, p.block_idx as int);
                }
            },
        }
    } else {
        assert(a.infos().len() == b.infos().len());
    }
}

/// Initialize the block layer.
pub fn block_init<D: BlockOp>() -> (r: BlockManager<D>)
    ensures
        r.wf(),
        r.all_blocks@.len() == 0,
{
    BlockManager::new()
}

} // verus!
