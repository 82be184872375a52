//! The boot sector of a FAT file system (its BIOS Parameter Block), and the
//! layout of the file system on disk that it gives.
use crate::bytes::{le16_at, le32_at, read_u16_le, read_u32_le};
use crate::fs::fat::fat::FatType;
use crate::vfs::{Error, INodeNum, Result};
use vstd::prelude::*;

verus! {

/// Size of a disk sector.
pub const DISK_SECTOR_SIZE: u32 = 512;

/// The fields of the boot sector that the file system uses.
#[derive(Clone, Copy, Debug, PartialEq, Eq, Structural)]
pub struct BootSector {
    pub bytes_per_sector: u32,
    pub sectors_per_cluster: u32,
    pub reserved_sector_count: u32,
    pub num_fats: u32,
    pub fat16_root_ent_count: u32,
    pub total_sectors16: u32,
    pub fat16_fat_size: u32,
    pub total_sectors32: u32,
    /// FAT-32 only: size of a FAT in sectors
    pub fat32_fat_size: u32,
    /// FAT-32 only: flags for FAT mirroring
    pub ext_flags: u32,
    /// FAT-32 only: first cluster of the root directory
    pub root_cluster: u32,
    /// FAT-32 only: sector of the copy of the boot sector
    pub bk_boot_sector: u32,
    /// Whether the sector ends with the signature 0x55 0xAA
    pub signature_ok: bool,
}

/// The fields of the 512-byte boot sector `s`.
pub open spec fn spec_boot_sector(s: Seq<u8>) -> BootSector {
    BootSector {
        bytes_per_sector: le16_at(s, 11) as u32,
        sectors_per_cluster: s[13] as u32,
        reserved_sector_count: le16_at(s, 14) as u32,
        num_fats: s[16] as u32,
        fat16_root_ent_count: le16_at(s, 17) as u32,
        total_sectors16: le16_at(s, 19) as u32,
        fat16_fat_size: le16_at(s, 22) as u32,
        total_sectors32: le32_at(s, 32) as u32,
        fat32_fat_size: le32_at(s, 36) as u32,
        ext_flags: le16_at(s, 40) as u32,
        root_cluster: le32_at(s, 44) as u32,
        bk_boot_sector: le16_at(s, 50) as u32,
        signature_ok: s[510] == 0x55 && s[511] == 0xAA,
    }
}

/// Read the fields of boot sector `s`.
pub fn read_boot_sector(s: &[u8]) -> (r: BootSector)
    requires
        s@.len() == 512,
    ensures
        r == spec_boot_sector(s@),
{
    BootSector {
        bytes_per_sector: read_u16_le(s, 11) as u32,
        sectors_per_cluster: s[13] as u32,
        reserved_sector_count: read_u16_le(s, 14) as u32,
        num_fats: s[16] as u32,
        fat16_root_ent_count: read_u16_le(s, 17) as u32,
        total_sectors16: read_u16_le(s, 19) as u32,
        fat16_fat_size: read_u16_le(s, 22) as u32,
        total_sectors32: read_u32_le(s, 32),
        fat32_fat_size: read_u32_le(s, 36),
        ext_flags: read_u16_le(s, 40) as u32,
        root_cluster: read_u32_le(s, 44),
        bk_boot_sector: read_u16_le(s, 50) as u32,
        signature_ok: s[510] == 0x55 && s[511] == 0xAA,
    }
}

/// Where everything of a FAT file system lies on its disk.
#[derive(Clone, Copy, Debug, PartialEq, Eq, Structural)]
pub struct FatGeometry {
    pub kind: FatType,
    pub cluster_count: u32,
    /// The disk sectors of the FAT that is read: `fat_first_disk_sector`
    /// and the `fat_disk_sector_count` after it
    pub fat_first_disk_sector: u32,
    pub fat_disk_sector_count: u32,
    pub num_fats: u32,
    /// First disk sector of the root directory (FAT-16 only)
    pub fat16_first_root_disk_sector: u32,
    /// Number of disk sectors of the root directory (FAT-16 only)
    pub fat16_root_disk_sector_count: u32,
    /// Disk sector where the first cluster starts
    pub first_cluster_disk_sector: u32,
    pub disk_sectors_per_cluster: u32,
    /// Inode of the root directory: its first cluster on FAT-32, 0 on FAT-16
    pub root_inode: INodeNum,
}

/// Whether `x` (a byte's value) is a power of two.
pub open spec fn is_power_of_two(x: u32) -> bool {
    x == 1 || x == 2 || x == 4 || x == 8 || x == 16 || x == 32 || x == 64 || x == 128
}

/// Whether the base fields of the boot sector are consistent: a sector size
/// of 512, 1024, 2048 or 4096 bytes, a power of two of sectors per cluster,
/// at least one FAT, some reserved sectors, and a root directory of whole
/// sectors.
pub open spec fn integrity_ok(b: BootSector) -> bool {
    &&& (b.bytes_per_sector == 512 || b.bytes_per_sector == 1024 || b.bytes_per_sector == 2048 || b.bytes_per_sector == 4096)
    &&& is_power_of_two(b.sectors_per_cluster)
    &&& b.num_fats != 0
    &&& b.reserved_sector_count != 0
    &&& (b.fat16_root_ent_count * 32) % (b.bytes_per_sector as int) == 0
}

/// Number of sectors of the FAT-16 root directory.
pub open spec fn root_dir_sectors(b: BootSector) -> int {
    (b.fat16_root_ent_count * 32 + b.bytes_per_sector - 1) / (b.bytes_per_sector as int)
}

/// Size of a FAT in sectors.
pub open spec fn fat_size(b: BootSector) -> int {
    if b.fat16_fat_size == 0 {
        b.fat32_fat_size as int
    } else {
        b.fat16_fat_size as int
    }
}

/// Total number of sectors.
pub open spec fn total_sectors(b: BootSector) -> int {
    if b.total_sectors16 == 0 {
        b.total_sectors32 as int
    } else {
        b.total_sectors16 as int
    }
}

/// Number of sectors for file and directory data.
pub open spec fn data_sectors(b: BootSector) -> int {
    total_sectors(b) - b.reserved_sector_count - b.num_fats * fat_size(b) - root_dir_sectors(b)
}

/// Number of clusters.
pub open spec fn cluster_count(b: BootSector) -> int {
    data_sectors(b) / (b.sectors_per_cluster as int)
}

/// The kind of FAT: by the number of clusters.
pub open spec fn fat_kind(b: BootSector) -> FatType {
    if cluster_count(b) < 65525 {
        FatType::Fat16
    } else {
        FatType::Fat32
    }
}

/// Disk sectors per sector of the file system.
pub open spec fn disk_per_fs_sector(b: BootSector) -> int {
    (b.bytes_per_sector / 512) as int
}

/// Whether FAT-32 mirroring is on (bit 7 of the flags).
pub open spec fn mirroring(b: BootSector) -> bool {
    (b.ext_flags / 128) % 2 == 1
}

/// The FAT that is in use when mirroring is off.
pub open spec fn active_fat(b: BootSector) -> int {
    if mirroring(b) {
        0
    } else {
        (b.ext_flags % 16) as int
    }
}

/// First disk sector of the FAT that is read.
pub open spec fn fat_first(b: BootSector) -> int {
    b.reserved_sector_count * disk_per_fs_sector(b) + if fat_kind(b) == FatType::Fat32 && !mirroring(b) {
        active_fat(b) * fat_size(b)
    } else {
        0
    }
}

/// Number of disk sectors of one FAT.
pub open spec fn fat_disk_sectors(b: BootSector) -> int {
    fat_size(b) * disk_per_fs_sector(b)
}

/// First disk sector of the FAT-16 root directory.
pub open spec fn root_first(b: BootSector) -> int {
    b.reserved_sector_count * disk_per_fs_sector(b) + fat_disk_sectors(b) * b.num_fats
}

/// Disk sector where the first cluster starts.
pub open spec fn first_cluster_sector(b: BootSector) -> int {
    root_first(b) + root_dir_sectors(b) * disk_per_fs_sector(b)
}

/// Whether the checks that come before the layout is computed pass: the
/// signature, the consistency of the fields, and more clusters than FAT-12
/// has (with a valid backup boot sector for FAT-32).
pub open spec fn passes_checks(b: BootSector) -> bool {
    &&& b.signature_ok
    &&& integrity_ok(b)
    &&& 0 <= data_sectors(b)
    &&& cluster_count(b) >= 4085
    &&& (fat_kind(b) == FatType::Fat32 ==> (b.bk_boot_sector == 0 || b.bk_boot_sector == 6))
}

/// Whether the layout that the boot sector gives fits the 32-bit numbers it
/// is computed in, wherever the computation reaches: the number of data
/// sectors must not be negative, and each sector number must fit.
pub open spec fn layout_fits(b: BootSector) -> bool {
    (b.signature_ok && integrity_ok(b)) ==> {
        &&& b.num_fats * fat_size(b) <= u32::MAX
        &&& total_sectors(b) - b.reserved_sector_count >= 0
        &&& total_sectors(b) - b.reserved_sector_count - b.num_fats * fat_size(b) >= 0
        &&& data_sectors(b) >= 0
        &&& passes_checks(b) ==> {
            &&& b.reserved_sector_count * disk_per_fs_sector(b) <= u32::MAX
            &&& active_fat(b) * fat_size(b) <= u32::MAX
            &&& fat_first(b) <= u32::MAX
            &&& fat_disk_sectors(b) <= u32::MAX
            &&& fat_first(b) + fat_disk_sectors(b) <= u32::MAX
            &&& fat_disk_sectors(b) * b.num_fats <= u32::MAX
            &&& root_first(b) <= u32::MAX
            &&& root_dir_sectors(b) * disk_per_fs_sector(b) <= u32::MAX
            &&& first_cluster_sector(b) <= u32::MAX
        }
    }
}

/// The layout that boot sector `b` gives, or `None` when a check fails.
pub open spec fn spec_geometry(b: BootSector) -> Option<FatGeometry> {
    if passes_checks(b) {
        Some(
            FatGeometry {
                kind: fat_kind(b),
                cluster_count: cluster_count(b) as u32,
                fat_first_disk_sector: fat_first(b) as u32,
                fat_disk_sector_count: fat_disk_sectors(b) as u32,
                num_fats: b.num_fats,
                fat16_first_root_disk_sector: root_first(b) as u32,
                fat16_root_disk_sector_count: (b.fat16_root_ent_count * 32 / 512) as u32,
                first_cluster_disk_sector: first_cluster_sector(b) as u32,
                disk_sectors_per_cluster: (disk_per_fs_sector(b) * b.sectors_per_cluster) as u32,
                root_inode: if fat_kind(b) == FatType::Fat32 {
                    b.root_cluster
                } else {
                    0
                },
            },
        )
    } else {
        None
    }
}

/// Whether `x` (a byte's value) is a power of two.
fn power_of_two(x: u32) -> (r: bool)
    requires
        x < 256,
    ensures
        r == is_power_of_two(x),
{
    if x == 0 {
        return false;
    }
    let y = x - 1;
    let r = (x & y) == 0;
    assert(r == (x == 1 || x == 2 || x == 4 || x == 8 || x == 16 || x == 32 || x == 64 || x == 128)) by (bit_vector)
        requires
            0 < x < 256,
            y == (x - 1) as u32,
            r == ((x & y) == 0),
    ;
    r
}

/// Check the consistency of the base fields of the boot sector.
pub fn check_integrity(b: &BootSector) -> (r: Result<()>)
    requires
        b.sectors_per_cluster < 256,
        b.fat16_root_ent_count <= u16::MAX,
    ensures
        r is Ok <==> integrity_ok(*b),
        r is Err ==> r matches Err(Error::IO(_)),
{
    let bps = b.bytes_per_sector;
    if !(bps == 512 || bps == 1024 || bps == 2048 || bps == 4096) {
        return Err(Error::io("invalid number of bytes per sector"));
    }
    if !power_of_two(b.sectors_per_cluster) {
        return Err(Error::io("number of sectors per cluster is not a power of two"));
    }
    if b.num_fats == 0 {
        return Err(Error::io("must have at least one FAT"));
    }
    if b.reserved_sector_count == 0 {
        return Err(Error::io("reserved sector count must be nonzero"));
    }
    if (b.fat16_root_ent_count * 32) % bps != 0 {
        return Err(Error::io("root entry count * 32B must be an integer number of sectors"));
    }
    Ok(())
}

/// Whether the layout that boot sector `b` gives fits 32-bit numbers
/// wherever it is computed.
pub fn layout_fits_in_u32(b: &BootSector) -> (r: bool)
    requires
        b.sectors_per_cluster < 256,
        b.num_fats < 256,
        b.fat16_root_ent_count <= u16::MAX,
        b.reserved_sector_count <= u16::MAX,
        b.ext_flags <= u16::MAX,
    ensures
        r == layout_fits(*b),
{
    if !b.signature_ok || check_integrity(b).is_err() {
        return true;
    }
    let bps = b.bytes_per_sector as u64;
    let root_dir_sectors: u64 = (b.fat16_root_ent_count as u64 * 32 + bps - 1) / bps;
    let fat_size: u64 = if b.fat16_fat_size == 0 { b.fat32_fat_size as u64 } else { b.fat16_fat_size as u64 };
    let total: u64 = if b.total_sectors16 == 0 { b.total_sectors32 as u64 } else { b.total_sectors16 as u64 };
    let reserved = b.reserved_sector_count as u64;
    let num_fats = b.num_fats as u64;
    assert(num_fats * fat_size <= 255 * 0xFFFF_FFFF) by (nonlinear_arith)
        requires num_fats <= 255, fat_size <= 0xFFFF_FFFF;
    let fats = num_fats * fat_size;
    if fats > u32::MAX as u64 || total < reserved || total - reserved < fats || total - reserved - fats < root_dir_sectors {
        return false;
    }
    let data_sectors = total - reserved - fats - root_dir_sectors;
    let cluster_count = data_sectors / (b.sectors_per_cluster as u64);
    if cluster_count < 4085 {
        return true;
    }
    let fat32 = cluster_count >= 65525;
    if fat32 && b.bk_boot_sector != 0 && b.bk_boot_sector != 6 {
        return true;
    }
    let dpfs = bps / 512;
    let mirroring = (b.ext_flags / 128) % 2 == 1;
    let active: u64 = if mirroring { 0 } else { (b.ext_flags % 16) as u64 };
    assert(dpfs <= 8);
    assert(reserved * dpfs <= 65535 * 8 && active * fat_size <= 15 * 0xFFFF_FFFF && fat_size * dpfs <= 8 * 0xFFFF_FFFF
        && root_dir_sectors * dpfs <= 0x1_0000_0000 * 8) by (nonlinear_arith)
        requires reserved <= 65535, dpfs <= 8, active <= 15, fat_size <= 0xFFFF_FFFF, root_dir_sectors <= 0x1_0000_0000;
    assert(fat_size * dpfs * num_fats <= 8 * 0xFFFF_FFFF * 255) by (nonlinear_arith)
        requires num_fats <= 255, dpfs <= 8, fat_size <= 0xFFFF_FFFF;
    let base = reserved * dpfs;
    let fat_first = base + if fat32 && !mirroring { active * fat_size } else { 0 };
    let fat_disk = fat_size * dpfs;
    let root_first = base + fat_disk * num_fats;
    let first_cluster = root_first + root_dir_sectors * dpfs;
    let m = u32::MAX as u64;
    base <= m && active * fat_size <= m && fat_first <= m && fat_disk <= m && fat_first + fat_disk <= m && fat_disk * num_fats <= m
        && root_first <= m && root_dir_sectors * dpfs <= m && first_cluster <= m
}

/// The layout of the file system that boot sector `b` describes; an I/O error
/// when the signature is missing, the fields are inconsistent, the file system
/// is FAT-12, or a FAT-32 backup boot sector is invalid.
pub fn geometry(b: &BootSector) -> (r: Result<FatGeometry>)
    requires
        b.sectors_per_cluster < 256,
        b.num_fats < 256,
        b.fat16_root_ent_count <= u16::MAX,
        b.reserved_sector_count <= u16::MAX,
        b.ext_flags <= u16::MAX,
        layout_fits(*b),
    ensures
        match spec_geometry(*b) {
            Some(g) => r == Ok::<FatGeometry, Error>(g),
            None => r matches Err(Error::IO(_)),
        },
{
    // NOTE: the signature is in the same place for FAT-16 and FAT-32
    if !b.signature_ok {
        return Err(Error::io("missing FAT signature in first sector"));
    }
    check_integrity(b)?;
    let bps = b.bytes_per_sector;
    // always zero for FAT-32
    let root_dir_sectors = (b.fat16_root_ent_count * 32 + bps - 1) / bps;
    let fat_size = if b.fat16_fat_size == 0 { b.fat32_fat_size } else { b.fat16_fat_size };
    let total = if b.total_sectors16 == 0 { b.total_sectors32 } else { b.total_sectors16 };
    let data_sectors = total - b.reserved_sector_count - b.num_fats * fat_size - root_dir_sectors;
    let cluster_count = data_sectors / b.sectors_per_cluster;
    // the kind of FAT is decided by the number of clusters alone
    let kind = if cluster_count < 4085 {
        return Err(Error::io("FAT-12 is not supported. Try creating a larger volume."));
    } else if cluster_count < 65525 {
        FatType::Fat16
    } else {
        if b.bk_boot_sector != 0 && b.bk_boot_sector != 6 {
            return Err(Error::io("Invalid value of BkBootSec"));
        }
        FatType::Fat32
    };
    let dpfs = bps / DISK_SECTOR_SIZE;
    let mut fat_first = b.reserved_sector_count * dpfs;
    let mirroring = (b.ext_flags / 128) % 2 == 1;
    if kind == FatType::Fat32 && !mirroring {
        // with mirroring off only one of the FATs is in use
        fat_first = fat_first + (b.ext_flags % 16) * fat_size;
    }
    let fat_disk = fat_size * dpfs;
    let root_first = b.reserved_sector_count * dpfs + fat_disk * b.num_fats;
    let first_cluster = root_first + root_dir_sectors * dpfs;
    let root_inode = if kind == FatType::Fat32 {
        // on FAT-32 the root is like any other directory
        b.root_cluster
    } else {
        // inode 0 stands for the FAT-16 root directory, which has its own sectors
        0
    };
    Ok(
        FatGeometry {
            kind,
            cluster_count,
            fat_first_disk_sector: fat_first,
            fat_disk_sector_count: fat_disk,
            num_fats: b.num_fats,
            fat16_first_root_disk_sector: root_first,
            fat16_root_disk_sector_count: b.fat16_root_ent_count * 32 / DISK_SECTOR_SIZE,
            first_cluster_disk_sector: first_cluster,
            disk_sectors_per_cluster: dpfs * b.sectors_per_cluster,
            root_inode,
        },
    )
}

} // verus!
