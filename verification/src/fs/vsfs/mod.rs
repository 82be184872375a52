//! A reader for VSFS, a very simple file system with fixed-size inodes, five
//! direct blocks and one indirect block per file, and fixed-size directory
//! entries.
use vstd::prelude::*;

pub mod vsfs;

use crate::block::block_core::{BlockOp, BlockSector, BLOCK_SECTOR_SIZE};
use crate::bytes::{is_valid_utf8, le32_at, le64_at, lemma_nul_at, nul_terminated, read_u32_le, read_u64_le};
use crate::fs::fat::lemma_position;
use crate::fs::vsfs::vsfs::{bitmap_bit, Bitmap, SuperBlock};
use vstd::arithmetic::div_mod::lemma_fundamental_div_mod_converse;
use crate::vfs::{device_error, raw_listing, read_count, read_range, Error, FileInfo, FileSystem, INodeNum, INodeType, RawDirEntry, Result};

verus! {

/// The block size of VSFS images, in bytes.
pub const VSFS_BLOCK_SIZE: usize = 4096;

/// Device sectors per VSFS block.
pub const BLOCK_SIZE_RATIO: usize = 8;

/// The magic number of a VSFS superblock.
pub const VSFS_MAGIC: u64 = 0xC5C369A4C5C369A4;

/// Direct block pointers per inode.
pub const VSFS_DIRECT_BLOCKS: usize = 5;

/// Block 0 holds the superblock.
pub const VSFS_SUPERBLOCK_BLOCK: u32 = 0;

/// Block 1 holds the inode bitmap.
pub const VSFS_INODE_BITMAP_BLOCK: u32 = 1;

/// Block 2 holds the data bitmap.
pub const VSFS_DATA_BITMAP_BLOCK: u32 = 2;

/// The inode table starts at block 3 and ends where the data starts.
pub const VSFS_INODE_TABLE_BLOCK: u32 = 3;

/// The size of an inode on disk, in bytes.
pub const VSFS_INODE_SIZE: usize = 64;

/// Inodes per block of the inode table.
pub const VSFS_INODES_PER_BLOCK: usize = 64;

/// The size of a directory entry on disk, in bytes: a 4-byte inode number
/// and a NUL-terminated name.
pub const VSFS_DIRENT_SIZE: usize = 256;

/// Directory entries with an inode number below this are in use.
pub const VSFS_INODE_LIMIT: u32 = 0x8000;

/// The mode of a regular file.
pub const VSFS_MODE_FILE: u32 = 33152;

/// The mode of a directory.
pub const VSFS_MODE_DIR: u32 = 16895;

/// The most blocks whose sectors all have 32-bit numbers.
pub const VSFS_BLOCK_LIMIT: u32 = 0x2000_0000;

/// A point in time: seconds since the Epoch, and nanoseconds.
#[derive(Clone, Copy, Debug, PartialEq, Eq, Structural)]
pub struct Timespec {
    pub tv_sec: i64,
    pub tv_nsec: i64,
}

/// An inode as the inode table holds it.
#[derive(Clone, Copy, Debug)]
pub struct Inode {
    /// File type and permissions
    pub mode: u32,
    /// Number of hard links
    pub n_links: u32,
    /// Number of blocks in the file
    pub block_count: u32,
    /// Unused padding
    pub _padding: u32,
    /// File size in bytes
    pub size: u64,
    /// Last modification time
    pub mtime: Timespec,
    /// Direct block pointers
    pub direct_blocks: [u32; 5],
    /// Indirect block pointer
    pub indirect_block: u32,
}

/// The superblock that the first bytes of `s` hold.
pub open spec fn spec_superblock(s: Seq<u8>) -> SuperBlock {
    SuperBlock {
        magic_number: le64_at(s, 0) as u64,
        fs_size: le64_at(s, 8) as u64,
        num_inodes: le32_at(s, 16) as u32,
        free_inodes: le32_at(s, 20) as u32,
        num_blocks: le32_at(s, 24) as u32,
        free_blocks: le32_at(s, 28) as u32,
        data_start: le32_at(s, 32) as u32,
    }
}

/// Whether `i` is the inode whose 64 bytes start at `off` in `s`.
#[verifier::opaque]
pub open spec fn inode_at(i: Inode, s: Seq<u8>, off: int) -> bool {
    &&& i.mode == le32_at(s, off)
    &&& i.n_links == le32_at(s, off + 4)
    &&& i.block_count == le32_at(s, off + 8)
    &&& i._padding == le32_at(s, off + 12)
    &&& i.size == le64_at(s, off + 16)
    &&& i.mtime.tv_sec == le64_at(s, off + 24) as i64
    &&& i.mtime.tv_nsec == le64_at(s, off + 32) as i64
    &&& i.direct_blocks@ == seq![
        le32_at(s, off + 40) as u32,
        le32_at(s, off + 44) as u32,
        le32_at(s, off + 48) as u32,
        le32_at(s, off + 52) as u32,
        le32_at(s, off + 56) as u32,
    ]
    &&& i.indirect_block == le32_at(s, off + 60)
}

/// Whether every field of `i` is zero.
pub open spec fn inode_is_zero(i: Inode) -> bool {
    &&& i.mode == 0
    &&& i.n_links == 0
    &&& i.block_count == 0
    &&& i._padding == 0
    &&& i.size == 0
    &&& i.mtime.tv_sec == 0
    &&& i.mtime.tv_nsec == 0
    &&& i.direct_blocks@ == seq![0u32, 0u32, 0u32, 0u32, 0u32]
    &&& i.indirect_block == 0
}

/// The superblock of a VSFS file system read from the first bytes of `sector`.
pub fn parse_superblock(sector: &[u8]) -> (r: SuperBlock)
    requires
        sector@.len() >= 36,
    ensures
        r == spec_superblock(sector@),
{
    SuperBlock {
        magic_number: read_u64_le(sector, 0),
        fs_size: read_u64_le(sector, 8),
        num_inodes: read_u32_le(sector, 16),
        free_inodes: read_u32_le(sector, 20),
        num_blocks: read_u32_le(sector, 24),
        free_blocks: read_u32_le(sector, 28),
        data_start: read_u32_le(sector, 32),
    }
}

/// Whether a superblock describes a layout this reader can walk: the inode
/// table fits the 4096-byte inode bitmap, and every data block has 32-bit
/// sector numbers. A superblock without the magic number is refused before
/// its layout matters.
pub open spec fn vsfs_fits(sb: SuperBlock) -> bool {
    sb.magic_number != VSFS_MAGIC || (sb.data_start <= 515 && (sb.num_blocks <= VSFS_BLOCK_LIMIT || sb.num_blocks
        <= sb.data_start))
}

/// Whether `VSFS::new` can walk the layout that `sb` describes.
pub fn superblock_fits(sb: &SuperBlock) -> (r: bool)
    ensures
        r == vsfs_fits(*sb),
{
    sb.magic_number != VSFS_MAGIC || (sb.data_start <= 515 && (sb.num_blocks <= VSFS_BLOCK_LIMIT || sb.num_blocks
        <= sb.data_start))
}

/// The 4096 bytes of VSFS block `b` of device `dev`.
pub open spec fn block_bytes<B: BlockOp>(dev: &B, b: int) -> Seq<u8> {
    Seq::new(4096, |p: int| dev.sector_data((b * 8 + p / 512) as BlockSector)[p % 512])
}

/// Whether the eight sectors of VSFS block `b` of device `dev` are known to read.
pub open spec fn block_readable<B: BlockOp>(dev: &B, b: int) -> bool {
    forall|j: int| 0 <= j < 8 ==> #[trigger] dev.sector_readable((b * 8 + j) as BlockSector)
}

/// The nonzero 32-bit entries among the first `n` of `data`, in order.
pub open spec fn nonzero_entries(data: Seq<u8>, n: int) -> Seq<u32>
    decreases n,
{
    if n <= 0 {
        Seq::empty()
    } else {
        let prev = nonzero_entries(data, n - 1);
        let e = le32_at(data, 4 * (n - 1)) as u32;
        if e != 0 {
            prev.push(e)
        } else {
            prev
        }
    }
}

/// The blocks of the file with inode `i` on `dev`: its direct blocks (at most
/// `block_count` of them) and, if it has more blocks and an indirect block,
/// the nonzero entries among the first 512 of the indirect block.
pub open spec fn spec_file_blocks<B: BlockOp>(dev: &B, i: Inode) -> Seq<u32> {
    let nd = if i.block_count < 5 { i.block_count as int } else { 5 };
    let direct = i.direct_blocks@.subrange(0, nd);
    if i.block_count > 5 && i.indirect_block != 0 {
        direct + nonzero_entries(block_bytes(dev, i.indirect_block as int), 512)
    } else {
        direct
    }
}

/// Byte `p` of a file whose blocks are `blocks`.
pub open spec fn file_byte<B: BlockOp>(dev: &B, blocks: Seq<u32>, p: int) -> u8 {
    dev.sector_data((blocks[p / 4096] * 8 + (p % 4096) / 512) as BlockSector)[p % 512]
}

/// Byte `p` of the directory with inode `i`: its first five blocks come from
/// the direct block pointers, and any further blocks read as zeros.
pub open spec fn dir_byte<B: BlockOp>(dev: &B, i: Inode, p: int) -> u8 {
    let b = p / 4096;
    if b < 5 && b < i.block_count {
        block_bytes(dev, i.direct_blocks@[b] as int)[p % 4096]
    } else {
        0
    }
}

/// The name of directory entry `k` of `data`: the bytes from byte 4 of the
/// entry up to the first NUL or the entry's end.
pub open spec fn dirent_name(data: Seq<u8>, k: int) -> Seq<u8> {
    nul_terminated(data.subrange(256 * k + 4, 256 * k + 256))
}

/// The listing of the first `n` directory entries of `data`: for each entry
/// in use (inode number below 0x8000), its inode, type and name; `None` if
/// a name is not UTF-8 or an inode number is past the inode table.
pub open spec fn dir_listing(data: Seq<u8>, n: int, inodes: Seq<Inode>) -> Option<Seq<(u32, INodeType, Seq<u8>)>>
    decreases n,
{
    if n <= 0 {
        Some(Seq::empty())
    } else {
        match dir_listing(data, n - 1, inodes) {
            None => None,
            Some(prev) => {
                let k = n - 1;
                let ino = le32_at(data, 256 * k);
                if ino >= VSFS_INODE_LIMIT {
                    Some(prev)
                } else if !vstd::utf8::valid_utf8(dirent_name(data, k)) || ino >= inodes.len() {
                    None
                } else {
                    let kind = if inodes[ino].mode == VSFS_MODE_FILE {
                        INodeType::File
                    } else {
                        INodeType::Directory
                    };
                    Some(prev.push((ino as u32, kind, dirent_name(data, k))))
                }
            },
        }
    }
}

impl Inode {
    /// The inode with every field zero.
    pub fn zero() -> (r: Inode)
        ensures
            inode_is_zero(r),
    {
        let r = Inode {
            mode: 0,
            n_links: 0,
            block_count: 0,
            _padding: 0,
            size: 0,
            mtime: Timespec { tv_sec: 0, tv_nsec: 0 },
            direct_blocks: [0u32; 5],
            indirect_block: 0,
        };
        assert(r.direct_blocks@ =~= seq![0u32, 0u32, 0u32, 0u32, 0u32]);
        r
    }

    /// The inode whose 64 bytes start at `off` in `buf`.
    pub fn parse(buf: &[u8], off: usize) -> (r: Inode)
        requires
            off + 64 <= buf@.len(),
        ensures
            inode_at(r, buf@, off as int),
    {
        let _len = buf.len();
        let d0 = read_u32_le(buf, off + 40);
        let d1 = read_u32_le(buf, off + 44);
        let d2 = read_u32_le(buf, off + 48);
        let d3 = read_u32_le(buf, off + 52);
        let d4 = read_u32_le(buf, off + 56);
        let r = Inode {
            mode: read_u32_le(buf, off),
            n_links: read_u32_le(buf, off + 4),
            block_count: read_u32_le(buf, off + 8),
            _padding: read_u32_le(buf, off + 12),
            size: read_u64_le(buf, off + 16),
            mtime: Timespec { tv_sec: read_u64_le(buf, off + 24) as i64, tv_nsec: read_u64_le(buf, off + 32) as i64 },
            direct_blocks: [d0, d1, d2, d3, d4],
            indirect_block: read_u32_le(buf, off + 60),
        };
        assert(r.direct_blocks@ =~= seq![d0, d1, d2, d3, d4]);
        proof {
            reveal(inode_at);
        }
        r
    }
}

/// Read VSFS block `b` of `dev` into `buf`, which must hold 4096 bytes.
fn read_block<B: BlockOp>(dev: &mut B, b: u32, buf: &mut Vec<u8>) -> (r: Result<()>)
    requires
        b < VSFS_BLOCK_LIMIT,
        old(buf)@.len() == 4096,
    ensures
        final(buf)@.len() == 4096,
        forall|s: BlockSector| #[trigger] final(dev).sector_data(s) == old(dev).sector_data(s),
        r is Ok ==> final(buf)@ == block_bytes(old(dev), b as int),
        r matches Err(e) ==> e is IO && device_error(e),
        forall|s: BlockSector| #[trigger] final(dev).sector_readable(s) == old(dev).sector_readable(s),
        block_readable(old(dev), b as int) ==> r is Ok,
{
    let ghost d0 = *dev;
    let mut sector: Vec<u8> = Vec::new();
    while sector.len() < BLOCK_SECTOR_SIZE
        invariant
            sector@.len() <= BLOCK_SECTOR_SIZE,
        decreases BLOCK_SECTOR_SIZE - sector@.len(),
    {
        sector.push(0);
    }
    let mut j: usize = 0;
    while j < BLOCK_SIZE_RATIO
        invariant
            j <= BLOCK_SIZE_RATIO,
            b < VSFS_BLOCK_LIMIT,
            d0 == *old(dev),
            buf@.len() == 4096,
            sector@.len() == BLOCK_SECTOR_SIZE,
            forall|s: BlockSector| #[trigger] dev.sector_data(s) == d0.sector_data(s),
            forall|s: BlockSector| #[trigger] dev.sector_readable(s) == d0.sector_readable(s),
            forall|p: int| 0 <= p < 512 * j ==> #[trigger] buf@[p] == block_bytes(&d0, b as int)[p],
        decreases BLOCK_SIZE_RATIO - j,
    {
        let s = b * 8 + j as u32;
        assert(block_readable(&d0, b as int) ==> d0.sector_readable((b * 8 + j) as BlockSector));
        match dev.read(s, sector.as_mut_slice()) {
            Ok(()) => {},
            Err(e) => return Err(Error::from_block_error(e)),
        }
        let ghost before = buf@;
        let mut k: usize = 0;
        while k < BLOCK_SECTOR_SIZE
            invariant
                k <= BLOCK_SECTOR_SIZE,
                j < BLOCK_SIZE_RATIO,
                buf@.len() == 4096,
                sector@.len() == BLOCK_SECTOR_SIZE,
                before.len() == 4096,
                forall|p: int| 0 <= p < 512 * j ==> buf@[p] == before[p],
                forall|p: int| 0 <= p < k ==> #[trigger] buf@[512 * j + p] == sector@[p],
            decreases BLOCK_SECTOR_SIZE - k,
        {
            buf.set(512 * j + k, sector[k]);
            k = k + 1;
        }
        proof {
            assert forall|p: int| 0 <= p < 512 * (j + 1) implies #[trigger] buf@[p] == block_bytes(&d0, b as int)[p] by {
                if p >= 512 * j {
                    let q = p - 512 * j;
                    assert(buf@[512 * j + q] == sector@[q]);
                    lemma_fundamental_div_mod_converse(p, 512, j as int, q);
                } else {
                    assert(buf@[p] == before[p]);
                }
            }
        }
        j = j + 1;
    }
    assert(buf@ =~= block_bytes(&d0, b as int));
    Ok(())
}

/// Two devices with the same sectors have the same blocks.
proof fn lemma_same_blocks<B: BlockOp>(d1: &B, d2: &B)
    requires
        forall|s: BlockSector| #[trigger] d1.sector_data(s) == d2.sector_data(s),
    ensures
        forall|b: int| #[trigger] block_bytes(d1, b) == block_bytes(d2, b),
{
    assert forall|b: int| #[trigger] block_bytes(d1, b) == block_bytes(d2, b) by {
        assert(block_bytes(d1, b) =~= block_bytes(d2, b));
    }
}

/// Two devices with the same sectors hold the same inode table.
proof fn lemma_same_inode_table<B: BlockOp>(d1: &B, d2: &B, bits: Seq<u8>, inodes: Seq<Inode>)
    requires
        forall|s: BlockSector| #[trigger] d1.sector_data(s) == d2.sector_data(s),
        inode_table(d1, bits, inodes),
    ensures
        inode_table(d2, bits, inodes),
{
    lemma_same_blocks(d1, d2);
    assert forall|n: int| 0 <= n < inodes.len() implies if bitmap_bit(bits, n) {
        inode_at(#[trigger] inodes[n], block_bytes(d2, 3 + n / 64), 64 * (n % 64))
    } else {
        inode_is_zero(inodes[n])
    } by {
        assert(block_bytes(d1, 3 + n / 64) == block_bytes(d2, 3 + n / 64));
    }
}

/// A zero-filled buffer of one VSFS block.
fn zero_block() -> (r: Vec<u8>)
    ensures
        r@.len() == 4096,
        forall|p: int| 0 <= p < 4096 ==> #[trigger] r@[p] == 0,
{
    let mut v: Vec<u8> = Vec::new();
    while v.len() < VSFS_BLOCK_SIZE
        invariant
            v@.len() <= VSFS_BLOCK_SIZE,
            forall|p: int| 0 <= p < v@.len() ==> #[trigger] v@[p] == 0,
        decreases VSFS_BLOCK_SIZE - v@.len(),
    {
        v.push(0);
    }
    v
}

/// Read every block from `start` up to `end`, to learn that they can be read.
fn check_data_blocks<B: BlockOp>(dev: &mut B, start: u32, end: u32) -> (r: Result<()>)
    requires
        end <= VSFS_BLOCK_LIMIT || end <= start,
    ensures
        forall|s: BlockSector| #[trigger] final(dev).sector_data(s) == old(dev).sector_data(s),
        r matches Err(e) ==> e is IO,
{
    let mut buf = zero_block();
    let mut i = start;
    while i < end
        invariant
            end <= VSFS_BLOCK_LIMIT || end <= start,
            start <= i,
            buf@.len() == 4096,
            forall|s: BlockSector| #[trigger] dev.sector_data(s) == old(dev).sector_data(s),
        decreases end - i,
    {
        read_block(dev, i, &mut buf)?;
        i = i + 1;
    }
    Ok(())
}

/// Whether `inodes` is the inode table read from blocks 3 on of `dev`, with
/// the inodes that `bits` marks free read as zeros.
pub open spec fn inode_table<B: BlockOp>(dev: &B, bits: Seq<u8>, inodes: Seq<Inode>) -> bool {
    forall|n: int| 0 <= n < inodes.len() ==> if bitmap_bit(bits, n) {
        inode_at(#[trigger] inodes[n], block_bytes(dev, 3 + n / 64), 64 * (n % 64))
    } else {
        inode_is_zero(inodes[n])
    }
}

/// Read the inode table, blocks 3 up to `data_start`, keeping the inodes
/// that `bitmap` marks allocated and zeros for the others.
fn read_inode_table<B: BlockOp>(dev: &mut B, bitmap: &Bitmap, data_start: u32) -> (r: Result<Vec<Inode>>)
    requires
        data_start <= 515,
        bitmap.bits@.len() == 4096,
    ensures
        forall|s: BlockSector| #[trigger] final(dev).sector_data(s) == old(dev).sector_data(s),
        r matches Err(e) ==> e is IO,
        r matches Ok(v) ==> v@.len() == (if data_start > 3 { 64 * (data_start - 3) } else { 0 }) && inode_table(
            old(dev),
            bitmap.bits@,
            v@,
        ),
{
    let ghost d0 = *dev;
    let mut buf = zero_block();
    let mut inodes: Vec<Inode> = Vec::new();
    let mut i = VSFS_INODE_TABLE_BLOCK;
    while i < data_start
        invariant
            data_start <= 515,
            bitmap.bits@.len() == 4096,
            d0 == *old(dev),
            VSFS_INODE_TABLE_BLOCK <= i,
            i <= data_start || i == VSFS_INODE_TABLE_BLOCK,
            inodes@.len() == 64 * (i - VSFS_INODE_TABLE_BLOCK),
            buf@.len() == 4096,
            forall|s: BlockSector| #[trigger] dev.sector_data(s) == d0.sector_data(s),
            inode_table(&d0, bitmap.bits@, inodes@),
        decreases data_start - i,
    {
        read_block(dev, i, &mut buf)?;
        let mut k: usize = 0;
        while k < VSFS_INODES_PER_BLOCK
            invariant
                k <= VSFS_INODES_PER_BLOCK,
                3 <= i < data_start,
                data_start <= 515,
                inodes@.len() == 64 * (i - 3) + k,
                buf@ == block_bytes(&d0, i as int),
                bitmap.bits@.len() == 4096,
                inode_table(&d0, bitmap.bits@, inodes@),
            decreases VSFS_INODES_PER_BLOCK - k,
        {
            let index = (i - VSFS_INODE_TABLE_BLOCK) * 64 + k as u32;
            let inode = if bitmap.is_allocated(index) {
                Inode::parse(buf.as_slice(), k * VSFS_INODE_SIZE)
            } else {
                Inode::zero()
            };
            let ghost n = inodes@.len() as int;
            proof {
                assert(n == index);
                lemma_fundamental_div_mod_converse(n, 64, i - 3, k as int);
            }
            let ghost prev = inodes@;
            inodes.push(inode);
            proof {
                assert forall|m: int| 0 <= m < inodes@.len() implies if bitmap_bit(bitmap.bits@, m) {
                    inode_at(#[trigger] inodes@[m], block_bytes(&d0, 3 + m / 64), 64 * (m % 64))
                } else {
                    inode_is_zero(inodes@[m])
                } by {
                    if m < n {
                        assert(inodes@[m] == prev[m]);
                    }
                }
            }
            k = k + 1;
        }
        i = i + 1;
    }
    Ok(inodes)
}

/// A VSFS file system on block device `B`: its superblock, bitmaps and inode
/// table, read when it is opened.
pub struct VSFS<B> {
    pub superblock: SuperBlock,
    pub inode_bitmap: Bitmap,
    pub data_bitmap: Bitmap,
    pub inodes: Vec<Inode>,
    pub block: B,
    pub root_inode: INodeNum,
}

impl<B: BlockOp> VSFS<B> {
    /// The bitmaps hold one block each, and the inode table is no longer than
    /// the inode bitmap; the root is inode 0.
    pub open spec fn layout_wf(&self) -> bool {
        &&& self.inode_bitmap.bits@.len() == 4096
        &&& self.data_bitmap.bits@.len() == 4096
        &&& self.inodes@.len() <= 32768
        &&& self.root_inode == 0
    }

    /// Whether a file's blocks cover its size and all have 32-bit sector
    /// numbers.
    pub open spec fn covered(&self, i: Inode) -> bool {
        let blocks = spec_file_blocks(&self.block, i);
        &&& i.size <= blocks.len() * 4096
        &&& forall|k: int| 0 <= k < blocks.len() ==> #[trigger] blocks[k] < VSFS_BLOCK_LIMIT
    }

    /// Whether reading the file with inode `i` meets no error of the file
    /// system's own: its blocks cover its size and lie within the volume.
    pub open spec fn readable(&self, i: Inode) -> bool {
        &&& self.covered(i)
        &&& i.block_count > 5 && i.indirect_block != 0 ==> i.indirect_block < VSFS_BLOCK_LIMIT
    }

    /// Whether the device promises the sectors that reading the file with
    /// inode `i` reads: those of its indirect block, if it has one in use, and
    /// of each of its blocks.
    pub open spec fn file_reads(&self, i: Inode) -> bool {
        let blocks = spec_file_blocks(&self.block, i);
        &&& i.block_count > 5 && i.indirect_block != 0 ==> block_readable(&self.block, i.indirect_block as int)
        &&& forall|k: int| 0 <= k < blocks.len() ==> block_readable(&self.block, #[trigger] blocks[k] as int)
    }

    /// The bytes of the file with inode `i`.
    pub open spec fn inode_bytes(&self, i: Inode) -> Seq<u8> {
        Seq::new(i.size as nat, |p: int| file_byte(&self.block, spec_file_blocks(&self.block, i), p))
    }

    /// Open the VSFS file system on `block`: read its superblock, its two
    /// bitmaps and its inode table (an inode the bitmap marks free reads as
    /// zeros), after checking that the data blocks can be read.
    pub fn new(block: B) -> (r: Result<VSFS<B>>)
        requires
            vsfs_fits(spec_superblock(block.sector_data(0))),
        ensures
            spec_superblock(block.sector_data(0)).magic_number != VSFS_MAGIC ==> r is Err,
            r matches Err(Error::Unsupported) ==> spec_superblock(block.sector_data(0)).magic_number != VSFS_MAGIC,
            r matches Ok(fs) ==> {
                let sb = spec_superblock(block.sector_data(0));
                &&& fs.layout_wf()
                &&& fs.superblock == sb
                &&& fs.inode_bitmap.bits@ == block_bytes(&block, 1)
                &&& fs.data_bitmap.bits@ == block_bytes(&block, 2)
                &&& fs.inodes@.len() == (if sb.data_start > 3 { 64 * (sb.data_start - 3) } else { 0 })
                &&& inode_table(&block, fs.inode_bitmap.bits@, fs.inodes@)
                &&& forall|s: BlockSector| #[trigger] fs.block.sector_data(s) == block.sector_data(s)
            },
    {
        let mut block = block;
        let ghost b0 = block;
        let mut first_sector: Vec<u8> = Vec::new();
        while first_sector.len() < BLOCK_SECTOR_SIZE
            invariant
                first_sector@.len() <= BLOCK_SECTOR_SIZE,
            decreases BLOCK_SECTOR_SIZE - first_sector@.len(),
        {
            first_sector.push(0);
        }
        match block.read(0, first_sector.as_mut_slice()) {
            Ok(()) => {},
            Err(e) => return Err(Error::from_block_error(e)),
        }
        let superblock = parse_superblock(first_sector.as_slice());
        if superblock.magic_number != VSFS_MAGIC {
            return Err(Error::Unsupported);
        }
        check_data_blocks(&mut block, superblock.data_start, superblock.num_blocks)?;
        let ghost b1 = block;
        let mut inode_bits = zero_block();
        read_block(&mut block, VSFS_INODE_BITMAP_BLOCK, &mut inode_bits)?;
        let ghost b2 = block;
        let inode_bitmap = Bitmap { bits: inode_bits };
        let mut data_bits = zero_block();
        read_block(&mut block, VSFS_DATA_BITMAP_BLOCK, &mut data_bits)?;
        let data_bitmap = Bitmap { bits: data_bits };
        let ghost b3 = block;
        let inodes = read_inode_table(&mut block, &inode_bitmap, superblock.data_start)?;
        proof {
            lemma_same_blocks(&b0, &b1);
            lemma_same_blocks(&b0, &b2);
            lemma_same_inode_table(&b3, &b0, inode_bitmap.bits@, inodes@);
            assert(block_bytes(&b1, 1) == block_bytes(&b0, 1));
            assert(block_bytes(&b2, 2) == block_bytes(&b0, 2));
        }
        Ok(VSFS { superblock, inode_bitmap, data_bitmap, inodes, block, root_inode: 0 })
    }
}

/// The blocks of the file with inode `i`, in order: its direct blocks, then
/// the nonzero entries of its indirect block if it has more than five.
pub fn file_blocks<B: BlockOp>(dev: &mut B, i: &Inode) -> (r: Result<Vec<u32>>)
    ensures
        forall|s: BlockSector| #[trigger] final(dev).sector_data(s) == old(dev).sector_data(s),
        r matches Ok(v) ==> v@ == spec_file_blocks(old(dev), *i),
        (i.block_count > 5 && i.indirect_block != 0 && i.indirect_block >= VSFS_BLOCK_LIMIT) ==> r is Err,
        r matches Err(e) ==> device_error(e) || (i.block_count > 5 && i.indirect_block != 0 && i.indirect_block >= VSFS_BLOCK_LIMIT),
        forall|s: BlockSector| #[trigger] final(dev).sector_readable(s) == old(dev).sector_readable(s),
        (i.block_count > 5 && i.indirect_block != 0 ==> i.indirect_block < VSFS_BLOCK_LIMIT && block_readable(
            old(dev),
            i.indirect_block as int,
        )) ==> r is Ok,
{
    let ghost d0 = *dev;
    let nd: usize = if i.block_count < 5 { i.block_count as usize } else { VSFS_DIRECT_BLOCKS };
    let mut blocks: Vec<u32> = Vec::new();
    let mut k: usize = 0;
    while k < nd
        invariant
            nd <= 5,
            k <= nd,
            blocks@ == i.direct_blocks@.subrange(0, k as int),
        decreases nd - k,
    {
        blocks.push(i.direct_blocks[k]);
        proof {
            assert(blocks@ =~= i.direct_blocks@.subrange(0, k + 1));
        }
        k = k + 1;
    }
    if i.block_count > 5 && i.indirect_block != 0 {
        if i.indirect_block >= VSFS_BLOCK_LIMIT {
            return Err(Error::io("indirect block number out of range"));
        }
        let mut data = zero_block();
        read_block(dev, i.indirect_block, &mut data)?;
        let ghost direct = blocks@;
        let mut e: usize = 0;
        while e < 512
            invariant
                e <= 512,
                data@.len() == 4096,
                data@ == block_bytes(&d0, i.indirect_block as int),
                blocks@ == direct + nonzero_entries(data@, e as int),
            decreases 512 - e,
        {
            let v = read_u32_le(data.as_slice(), 4 * e);
            if v != 0 {
                blocks.push(v);
            }
            proof {
                assert(blocks@ =~= direct + nonzero_entries(data@, e + 1));
            }
            e = e + 1;
        }
    }
    Ok(blocks)
}

/// The name in the 252 bytes of `data` from `start`: up to the first NUL.
fn name_at(data: &Vec<u8>, start: usize) -> (r: Vec<u8>)
    requires
        start + 252 <= data@.len(),
    ensures
        r@ == nul_terminated(data@.subrange(start as int, start + 252)),
{
    let ghost rec = data@.subrange(start as int, start + 252);
    let _len = data.len();
    let mut name: Vec<u8> = Vec::new();
    let mut j: usize = 0;
    while j < 252 && data[start + j] != 0
        invariant
            j <= 252,
            start + 252 <= data@.len(),
            data@.len() <= usize::MAX,
            rec == data@.subrange(start as int, start + 252),
            name@ == rec.subrange(0, j as int),
            forall|m: int| 0 <= m < j ==> rec[m] != 0,
        decreases 252 - j,
    {
        name.push(data[start + j]);
        proof {
            assert(name@ =~= rec.subrange(0, j + 1));
        }
        j = j + 1;
    }
    proof {
        if j < 252 {
            lemma_nul_at(rec, j as int);
        } else {
            assert(name@ =~= rec);
            assert(!exists|m: int| 0 <= m < rec.len() && rec[m] == 0);
            reveal(nul_terminated);
        }
    }
    name
}

/// Read the direct blocks of the directory with inode `i` (at most five,
/// and at most `block_count`), one after another.
fn read_dir_blocks<B: BlockOp>(dev: &mut B, i: &Inode) -> (r: Result<Vec<u8>>)
    ensures
        forall|s: BlockSector| #[trigger] final(dev).sector_data(s) == old(dev).sector_data(s),
        r matches Ok(data) ==> {
            &&& data@.len() == 4096 * (if i.block_count < 5 { i.block_count as int } else { 5 })
            &&& forall|p: int| 0 <= p < data@.len() ==> #[trigger] data@[p] == dir_byte(old(dev), *i, p)
        },
{
    let ghost d0 = *dev;
    let nd: usize = if i.block_count < 5 { i.block_count as usize } else { VSFS_DIRECT_BLOCKS };
    let mut data: Vec<u8> = Vec::new();
    let mut buf = zero_block();
    let mut b: usize = 0;
    while b < nd
        invariant
            d0 == *old(dev),
            nd == (if i.block_count < 5 { i.block_count as int } else { 5 }),
            b <= nd,
            buf@.len() == 4096,
            forall|t: BlockSector| #[trigger] dev.sector_data(t) == d0.sector_data(t),
            data@.len() == 4096 * b,
            forall|p: int| 0 <= p < data@.len() ==> #[trigger] data@[p] == dir_byte(&d0, *i, p),
        decreases nd - b,
    {
        let blk = i.direct_blocks[b];
        if blk >= VSFS_BLOCK_LIMIT {
            return Err(Error::io("block number out of range"));
        }
        let ghost sb = *dev;
        read_block(dev, blk, &mut buf)?;
        proof {
            lemma_same_blocks(&sb, &d0);
        }
        let ghost before = data@;
        let mut q: usize = 0;
        while q < VSFS_BLOCK_SIZE
            invariant
                q <= VSFS_BLOCK_SIZE,
                b < nd,
                buf@.len() == 4096,
                before.len() == 4096 * b,
                data@.len() == 4096 * b + q,
                forall|p: int| 0 <= p < 4096 * b ==> data@[p] == before[p],
                forall|p: int| 0 <= p < q ==> #[trigger] data@[4096 * b + p] == buf@[p],
            decreases VSFS_BLOCK_SIZE - q,
        {
            data.push(buf[q]);
            q = q + 1;
        }
        proof {
            assert forall|p: int| 0 <= p < data@.len() implies #[trigger] data@[p] == dir_byte(&d0, *i, p) by {
                if p >= 4096 * b {
                    let q2 = p - 4096 * b;
                    assert(data@[4096 * b + q2] == buf@[q2]);
                    lemma_fundamental_div_mod_converse(p, 4096, b as int, q2);
                    assert(i.direct_blocks@[b as int] == blk);
                } else {
                    assert(data@[p] == before[p]);
                }
            }
        }
        b = b + 1;
    }
    Ok(data)
}

/// Record `k` of `dd` as `data` holds it: its inode number and name bytes.
proof fn lemma_record_in_data(data: Seq<u8>, dd: Seq<u8>, k: int)
    requires
        0 <= k,
        256 * k + 256 <= data.len(),
        data.len() <= dd.len(),
        forall|p: int| 0 <= p < data.len() ==> #[trigger] data[p] == dd[p],
    ensures
        le32_at(data, 256 * k) == le32_at(dd, 256 * k),
        data.subrange(256 * k + 4, 256 * k + 256) == dd.subrange(256 * k + 4, 256 * k + 256),
{
    assert(data[256 * k] == dd[256 * k]);
    assert(data[256 * k + 1] == dd[256 * k + 1]);
    assert(data[256 * k + 2] == dd[256 * k + 2]);
    assert(data[256 * k + 3] == dd[256 * k + 3]);
    assert(data.subrange(256 * k + 4, 256 * k + 256) =~= dd.subrange(256 * k + 4, 256 * k + 256));
}

/// Record `k` of `dd` past `data` is zeros: inode 0 and an empty name.
proof fn lemma_record_zero(data: Seq<u8>, dd: Seq<u8>, k: int)
    requires
        0 <= k,
        256 * k >= data.len(),
        256 * k + 256 <= dd.len(),
        forall|p: int| data.len() <= p < dd.len() ==> #[trigger] dd[p] == 0,
    ensures
        le32_at(dd, 256 * k) == 0,
        dirent_name(dd, k) == Seq::<u8>::empty(),
{
    assert(dd[256 * k] == 0);
    assert(dd[256 * k + 1] == 0);
    assert(dd[256 * k + 2] == 0);
    assert(dd[256 * k + 3] == 0);
    let rec = dd.subrange(256 * k + 4, 256 * k + 256);
    assert(rec[0] == dd[256 * k + 4]);
    lemma_nul_at(rec, 0);
    assert(rec.subrange(0, 0) =~= Seq::<u8>::empty());
}

/// List the entries in use among the first `count * 16` records of the
/// directory bytes `dd`, of which `data` holds the first `nd` blocks (the
/// rest are zeros).
fn list_records(data: &Vec<u8>, nd: usize, dd: Ghost<Seq<u8>>, count: u32, inodes: &Vec<Inode>) -> (r: Result<Vec<RawDirEntry>>)
    requires
        count < 0x10_0000,
        nd <= count,
        dd@.len() == count * 4096,
        data@.len() == 4096 * nd,
        forall|p: int| 0 <= p < data@.len() ==> #[trigger] data@[p] == dd@[p],
        forall|p: int| data@.len() <= p < dd@.len() ==> #[trigger] dd@[p] == 0,
    ensures
        r matches Ok(v) ==> dir_listing(dd@, count * 16, inodes@) == Some(raw_listing(v@)),
        dir_listing(dd@, count * 16, inodes@) is None ==> r is Err,
{
    let nrec: u32 = count * 16;
    let ndata: u32 = (nd as u32) * 16;
    let mut entries: Vec<RawDirEntry> = Vec::new();
    let mut k: u32 = 0;
    while k < nrec
        invariant
            count < 0x10_0000,
            nd <= count,
            nrec == count * 16,
            ndata == nd * 16,
            k <= nrec,
            dd@.len() == count * 4096,
            data@.len() == 4096 * nd,
            forall|p: int| 0 <= p < data@.len() ==> #[trigger] data@[p] == dd@[p],
            forall|p: int| data@.len() <= p < dd@.len() ==> #[trigger] dd@[p] == 0,
            dir_listing(dd@, k as int, inodes@) == Some(raw_listing(entries@)),
        decreases nrec - k,
    {
        let base: usize = 256 * (k as usize);
        let in_data = k < ndata;
        let ino: u32 = if in_data {
            read_u32_le(data.as_slice(), base)
        } else {
            0
        };
        proof {
            if in_data {
                lemma_record_in_data(data@, dd@, k as int);
            } else {
                lemma_record_zero(data@, dd@, k as int);
            }
        }
        if ino < VSFS_INODE_LIMIT {
            let name = if in_data {
                name_at(data, base + 4)
            } else {
                Vec::new()
            };
            assert(name@ == dirent_name(dd@, k as int));
            if !is_valid_utf8(name.as_slice()) {
                return Err(Error::io("bad UTF-8 in file name"));
            }
            if ino as usize >= inodes.len() {
                return Err(Error::NotFound);
            }
            let kind = if inodes[ino as usize].mode == VSFS_MODE_FILE {
                INodeType::File
            } else {
                INodeType::Directory
            };
            let ghost prev = entries@;
            entries.push(RawDirEntry { inode: ino, kind, name });
            proof {
                assert(raw_listing(entries@) =~= raw_listing(prev).push((ino, kind, dirent_name(dd@, k as int))));
            }
        }
        k = k + 1;
    }
    Ok(entries)
}

impl<B: BlockOp> VSFS<B> {
    /// The bytes of the directory with inode `i`: `block_count` blocks, the
    /// first five from its direct blocks, any others zeros.
    pub open spec fn dir_data(&self, i: Inode) -> Seq<u8> {
        Seq::new((i.block_count * 4096) as nat, |p: int| dir_byte(&self.block, i, p))
    }
}

/// Two states with the same inodes and bitmap, on devices with the same
/// sectors, hold the same files.
proof fn lemma_same_files<B: BlockOp>(a: &VSFS<B>, b: &VSFS<B>)
    requires
        a.inodes@ == b.inodes@,
        a.inode_bitmap.bits@ == b.inode_bitmap.bits@,
        forall|s: BlockSector| #[trigger] a.block.sector_data(s) == b.block.sector_data(s),
    ensures
        forall|i: INodeNum| #[trigger] a.file_data(i) == b.file_data(i),
        forall|i: INodeNum| #[trigger] a.inode_kind(i) == b.inode_kind(i),
        forall|d: INodeNum| #[trigger] a.dir_entries(d) == b.dir_entries(d),
{
    lemma_same_blocks(&a.block, &b.block);
    assert forall|n: Inode| #[trigger] a.dir_data(n) == b.dir_data(n) by {
        assert(a.dir_data(n) =~= b.dir_data(n));
    }
    assert forall|n: Inode| #[trigger] spec_file_blocks(&a.block, n) == spec_file_blocks(&b.block, n) by {
        assert(block_bytes(&a.block, n.indirect_block as int) == block_bytes(&b.block, n.indirect_block as int));
    }
    assert forall|i: INodeNum| #[trigger] a.file_data(i) == b.file_data(i) by {
        if (i as int) < a.inodes@.len() {
            let n = a.inodes@[i as int];
            assert(spec_file_blocks(&a.block, n) == spec_file_blocks(&b.block, n));
            assert(a.inode_bytes(n) =~= b.inode_bytes(n));
        }
    }
}

impl<B: BlockOp> FileSystem for VSFS<B> {
    open spec fn fs_inv(&self) -> bool {
        self.layout_wf()
    }

    /// The bytes of an allocated regular file whose blocks cover its size.
    open spec fn file_data(&self, ino: INodeNum) -> Option<Seq<u8>> {
        if (ino as int) < self.inodes@.len() && self.inode_bitmap.allocated(ino as int) && self.inodes@[ino as int].mode
            == VSFS_MODE_FILE && self.covered(self.inodes@[ino as int]) {
            Some(self.inode_bytes(self.inodes@[ino as int]))
        } else {
            None
        }
    }

    /// An allocated inode is a regular file if its mode says so, and a
    /// directory otherwise.
    open spec fn inode_kind(&self, ino: INodeNum) -> Option<INodeType> {
        if (ino as int) < self.inodes@.len() && self.inode_bitmap.allocated(ino as int) {
            if self.inodes@[ino as int].mode == VSFS_MODE_FILE {
                Some(INodeType::File)
            } else {
                Some(INodeType::Directory)
            }
        } else {
            None
        }
    }

    open spec fn spec_root(&self) -> INodeNum {
        self.root_inode
    }

    /// The entries in use of the directory's records, as `dir_listing` reads
    /// them from its blocks.
    open spec fn dir_entries(&self, dir: INodeNum) -> Option<Seq<(INodeNum, INodeType, Seq<u8>)>> {
        if (dir as int) < self.inodes@.len() {
            let i = self.inodes@[dir as int];
            dir_listing(self.dir_data(i), i.block_count * 16, self.inodes@)
        } else {
            None
        }
    }

    fn root(&self) -> (r: INodeNum) {
        self.root_inode
    }

    /// Only an allocated directory can be opened; an inode past the inode
    /// table is not found.
    fn open(&mut self, inode: INodeNum) -> (r: Result<()>)
        ensures
            *final(self) == *old(self),
            (inode as int) >= old(self).inodes@.len() ==> r matches Err(Error::NotFound),
            (inode as int) < old(self).inodes@.len() ==> {
                if old(self).inodes@[inode as int].mode != VSFS_MODE_DIR {
                    r matches Err(Error::NotDirectory)
                } else if !old(self).inode_bitmap.allocated(inode as int) {
                    r matches Err(Error::NotFound)
                } else {
                    r is Ok
                }
            },
    {
        if inode as usize >= self.inodes.len() {
            return Err(Error::NotFound);
        }
        if self.inodes[inode as usize].mode != VSFS_MODE_DIR {
            return Err(Error::NotDirectory);
        } else if !self.inode_bitmap.is_allocated(inode) {
            return Err(Error::NotFound);
        }
        Ok(())
    }

    /// Nothing is held for an open inode.
    fn release(&mut self, inode: INodeNum)
        ensures
            *final(self) == *old(self),
    {
    }

    fn create(&mut self, parent: INodeNum, name: &[u8]) -> (r: Result<INodeNum>)
        ensures
            r matches Err(Error::ReadOnlyFS),
    {
        Err(Error::ReadOnlyFS)
    }

    fn mkdir(&mut self, parent: INodeNum, name: &[u8]) -> (r: Result<INodeNum>)
        ensures
            r matches Err(Error::ReadOnlyFS),
    {
        Err(Error::ReadOnlyFS)
    }

    fn unlink(&mut self, parent: INodeNum, name: &[u8]) -> (r: Result<()>)
        ensures
            r matches Err(Error::ReadOnlyFS),
    {
        Err(Error::ReadOnlyFS)
    }

    fn rmdir(&mut self, parent: INodeNum, name: &[u8]) -> (r: Result<()>)
        ensures
            r matches Err(Error::ReadOnlyFS),
    {
        Err(Error::ReadOnlyFS)
    }

    /// The entries in use, in order, of every 256-byte record of the
    /// directory's blocks. An inode past the inode table, a directory of a
    /// million blocks or more, or a direct block past the 32-bit sectors is
    /// refused with an error.
    fn readdir(&mut self, dir: INodeNum) -> (r: Result<Vec<RawDirEntry>>)
        ensures
            (dir as int) >= old(self).inodes@.len() ==> r matches Err(Error::NotFound),
            (dir as int) < old(self).inodes@.len() ==> {
                let i = old(self).inodes@[dir as int];
                let listing = dir_listing(old(self).dir_data(i), i.block_count * 16, old(self).inodes@);
                &&& r matches Ok(v) ==> listing == Some(raw_listing(v@))
                &&& listing is None ==> r is Err
            },
    {
        if dir as usize >= self.inodes.len() {
            return Err(Error::NotFound);
        }
        let inode = self.inodes[dir as usize];
        let count = inode.block_count;
        if count >= 0x10_0000 {
            return Err(Error::io("directory too large"));
        }
        let ghost s0 = *self;
        let data = match read_dir_blocks(&mut self.block, &inode) {
            Ok(d) => d,
            Err(e) => {
                proof { lemma_same_files(&s0, self); }
                return Err(e);
            },
        };
        proof {
            lemma_same_files(&s0, self);
            let dd = s0.dir_data(inode);
            assert forall|p: int| data@.len() <= p < dd.len() implies #[trigger] dd[p] == 0 by {
                let nd: int = if count < 5 { count as int } else { 5 };
                assert(p / 4096 >= nd) by (nonlinear_arith)
                    requires p >= 4096 * nd, nd >= 0;
            }
        }
        let nd: usize = if count < 5 { count as usize } else { VSFS_DIRECT_BLOCKS };
        list_records(&data, nd, Ghost(s0.dir_data(inode)), count, &self.inodes)
    }

    /// Reads go through the file's block list; an inode past the inode table
    /// is not found.
    fn read(&mut self, file: INodeNum, offset: u64, buf: &mut [u8]) -> (r: Result<usize>)
        ensures
            (file as int) >= old(self).inodes@.len() ==> r matches Err(Error::NotFound),
            (file as int) < old(self).inodes@.len() && old(self).readable(old(self).inodes@[file as int]) ==> (r is Ok || (r matches Err(
                e,
            ) && device_error(e))),
            (file as int) < old(self).inodes@.len() && old(self).readable(old(self).inodes@[file as int]) && old(self).file_reads(
                old(self).inodes@[file as int],
            ) ==> r is Ok,
            (file as int) < old(self).inodes@.len() && old(self).readable(old(self).inodes@[file as int]) ==> (r matches Ok(n) ==> {
                let i = old(self).inodes@[file as int];
                &&& n == read_count(i.size as int, offset as int, old(buf)@.len() as int)
                &&& final(buf)@.subrange(0, n as int) == read_range(old(self).inode_bytes(i), offset as int, n as int)
            }),
    {
        if file as usize >= self.inodes.len() {
            return Err(Error::NotFound);
        }
        let inode = self.inodes[file as usize];
        let ghost s0 = *self;
        let blocks = match file_blocks(&mut self.block, &inode) {
            Ok(b) => b,
            Err(e) => {
                proof { lemma_same_files(&s0, self); }
                return Err(e);
            },
        };
        let ghost s1 = *self;
        proof {
            lemma_same_files(&s0, self);
            lemma_same_blocks(&s0.block, &self.block);
        }
        let size = inode.size;
        let mut sector_buf: Vec<u8> = Vec::new();
        while sector_buf.len() < BLOCK_SECTOR_SIZE
            invariant
                sector_buf@.len() <= BLOCK_SECTOR_SIZE,
            decreases BLOCK_SECTOR_SIZE - sector_buf@.len(),
        {
            sector_buf.push(0);
        }
        let blen = buf.len();
        let mut pos: u64 = offset;
        let mut count: usize = 0;
        while count < blen && pos < size
            invariant
                s0 == *old(self),
                s0.layout_wf(),
                (file as int) < s0.inodes@.len(),
                s1.inodes == s0.inodes,
                s1.inode_bitmap == s0.inode_bitmap,
                self.inodes == s0.inodes,
                self.inode_bitmap == s0.inode_bitmap,
                self.data_bitmap == s0.data_bitmap,
                self.superblock == s0.superblock,
                self.root_inode == s0.root_inode,
                forall|t: BlockSector| #[trigger] self.block.sector_data(t) == s0.block.sector_data(t),
                forall|t: BlockSector| #[trigger] self.block.sector_readable(t) == s0.block.sector_readable(t),
                blocks@ == spec_file_blocks(&s0.block, inode),
                inode == s0.inodes@[file as int],
                size == inode.size,
                blen == buf@.len(),
                blen == old(buf)@.len(),
                sector_buf@.len() == BLOCK_SECTOR_SIZE,
                count <= blen,
                pos == offset + count,
                count > 0 ==> pos <= size,
                forall|j: int| 0 <= j < count ==> #[trigger] buf@[j] == file_byte(&s0.block, blocks@, offset + j),
            decreases blen - count,
        {
            let bi = pos / 4096;
            proof {
                if s0.readable(inode) {
                    let bl = blocks@.len() as int;
                    assert(pos < bl * 4096);
                    assert(pos / 4096 < bl) by (nonlinear_arith)
                        requires
                            pos < bl * 4096,
                            pos >= 0,
                    ;
                }
            }
            if bi >= blocks.len() as u64 {
                proof { lemma_same_files(&s0, self); }
                return Err(Error::io("file is longer than its blocks"));
            }
            let b = blocks[bi as usize];
            if b >= VSFS_BLOCK_LIMIT {
                proof { lemma_same_files(&s0, self); }
                return Err(Error::io("block number out of range"));
            }
            let sector = b * 8 + ((pos % 4096) / 512) as u32;
            proof {
                if s0.file_reads(inode) {
                    assert(block_readable(&s0.block, blocks@[bi as int] as int));
                    let jj = ((pos % 4096) / 512) as int;
                    assert(s0.block.sector_readable((b * 8 + jj) as BlockSector));
                }
            }
            match self.block.read(sector, sector_buf.as_mut_slice()) {
                Ok(()) => {},
                Err(e) => {
                    proof { lemma_same_files(&s0, self); }
                    return Err(Error::from_block_error(e));
                },
            }
            let so = (pos % 512) as usize;
            let mut n: usize = blen - count;
            if size - pos < n as u64 {
                n = (size - pos) as usize;
            }
            if BLOCK_SECTOR_SIZE - so < n {
                n = BLOCK_SECTOR_SIZE - so;
            }
            let ghost before = buf@;
            let mut k: usize = 0;
            while k < n
                invariant
                    k <= n,
                    count + n <= blen,
                    so + n <= BLOCK_SECTOR_SIZE,
                    buf@.len() == blen,
                    sector_buf@.len() == BLOCK_SECTOR_SIZE,
                    before.len() == blen,
                    forall|j: int| 0 <= j < count ==> buf@[j] == before[j],
                    forall|j: int| 0 <= j < k ==> #[trigger] buf@[count + j] == sector_buf@[so + j],
                decreases n - k,
            {
                buf[count + k] = sector_buf[so + k];
                k = k + 1;
            }
            proof {
                assert(sector_buf@ == s0.block.sector_data(sector));
                assert forall|j: int| 0 <= j < count + n implies #[trigger] buf@[j] == file_byte(&s0.block, blocks@, offset + j) by {
                    if j >= count {
                        let k2 = j - count;
                        lemma_position(pos as int, k2, 8);
                        assert(buf@[count + k2] == sector_buf@[so + k2]);
                    } else {
                        assert(buf@[j] == before[j]);
                    }
                }
            }
            pos = pos + n as u64;
            count = count + n;
        }
        proof {
            lemma_same_files(&s0, self);
            if s0.file_data(file) is Some {
                let d = s0.inode_bytes(inode);
                assert(buf@.subrange(0, count as int) =~= read_range(d, offset as int, count as int));
            }
        }
        Ok(count)
    }

    fn write(&mut self, file: INodeNum, offset: u64, buf: &[u8]) -> (r: Result<usize>)
        ensures
            r matches Err(Error::ReadOnlyFS),
    {
        Err(Error::ReadOnlyFS)
    }

    /// Information from an allocated inode.
    fn stat(&mut self, file: INodeNum) -> (r: Result<FileInfo>)
        ensures
            *final(self) == *old(self),
            match old(self).inode_kind(file) {
                Some(kind) => r == Ok::<FileInfo, Error>(
                    FileInfo {
                        inode: file,
                        size: old(self).inodes@[file as int].size,
                        kind,
                        nlink: old(self).inodes@[file as int].n_links,
                    },
                ),
                None => r matches Err(Error::NotFound),
            },
    {
        if file as usize >= self.inodes.len() || !self.inode_bitmap.is_allocated(file) {
            return Err(Error::NotFound);
        }
        let inode = &self.inodes[file as usize];
        let kind = if inode.mode == VSFS_MODE_FILE {
            INodeType::File
        } else {
            INodeType::Directory
        };
        Ok(FileInfo { inode: file, size: inode.size, kind, nlink: inode.n_links })
    }

    fn link(&mut self, source: INodeNum, parent: INodeNum, name: &[u8]) -> (r: Result<()>)
        ensures
            r matches Err(Error::ReadOnlyFS),
    {
        Err(Error::ReadOnlyFS)
    }

    fn symlink(&mut self, link: &[u8], parent: INodeNum, name: &[u8]) -> (r: Result<INodeNum>)
        ensures
            r matches Err(Error::ReadOnlyFS),
    {
        Err(Error::ReadOnlyFS)
    }

    /// A VSFS inode is never a symbolic link.
    fn readlink(&mut self, link: INodeNum) -> (r: Result<Vec<u8>>)
        ensures
            r matches Err(Error::NotLink),
    {
        Err(Error::NotLink)
    }

    fn truncate(&mut self, file: INodeNum, size: u64) -> (r: Result<()>)
        ensures
            r matches Err(Error::ReadOnlyFS),
    {
        Err(Error::ReadOnlyFS)
    }

    fn sync(&mut self) -> (r: Result<()>)
        ensures
            r is Ok,
    {
        Ok(())
    }
}
} // verus!
