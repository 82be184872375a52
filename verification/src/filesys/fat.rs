//! A FAT-16 reader over a `DiskDevice`: the boot sector, the file allocation
//! table, directories (their first sector) and reads of file data.
use crate::bytes::{is_valid_utf8, le16_at, le32_at};
use crate::filesys::disk_device::{read_into, read_length, DiskDevice, IoError, IoErrorKind};
use vstd::prelude::*;

verus! {

/// The largest sector size that directory and file reads work with.
pub const MAX_SECTOR_SIZE: u16 = 4096;

/// The fields of a FAT-16 boot sector that the reader uses.
#[derive(Clone, Copy, Debug, PartialEq, Eq, Structural)]
pub struct BootParams {
    pub bytes_per_sector: u16,
    pub sectors_per_cluster: u8,
    pub num_reserved_sectors: u16,
    pub num_fats: u8,
    pub num_root_dir_entries: u16,
    pub total_sectors: u32,
    pub num_sectors_per_fat: u16,
    pub num_hidden_sectors: u32,
}

/// A FAT-16 file system on disk `D`, with its file allocation table in memory.
pub struct Fat16<D> {
    pub disk: D,
    pub bytes_per_sector: u16,
    pub sectors_per_cluster: u8,
    pub num_reserved_sectors: u16,
    pub num_fats: u8,
    pub num_root_dir_entries: u16,
    pub total_sectors: u32,
    pub num_sectors_per_fat: u16,
    pub num_hidden_sectors: u32,
    /// The first cluster of the data area.
    pub data_cluster_start: u16,
    /// The file allocation table: the cluster that follows each cluster.
    pub fat_cache: Vec<u16>,
}

/// An open file: its first cluster and size, and the cluster that holds the
/// byte at `cache_offset` (where the last read ended).
pub struct File {
    pub name: Vec<u8>,
    pub cluster: u16,
    pub file_size: u32,
    pub cache_offset: u32,
    pub cache_cluster: u16,
}

/// A directory and the entries of its first sector.
pub struct Directory {
    pub name: Vec<u8>,
    pub cluster: u16,
    pub children: Vec<Inode>,
}

/// A file or a directory.
pub enum FSEntry {
    F(File),
    Dir(Directory),
}

/// A directory entry: its name (the eleven bytes of the short name), first
/// cluster, size, and whether it is a directory.
pub struct Inode {
    pub name: Vec<u8>,
    pub cluster: u16,
    pub file_size: u32,
    pub is_dir: bool,
}

/// An entry as name, first cluster, size and directory flag.
pub open spec fn inode_view(i: Inode) -> (Seq<u8>, u16, u32, bool) {
    (i.name@, i.cluster, i.file_size, i.is_dir)
}

/// The entries of a list, each by `inode_view`.
pub open spec fn inodes_view(v: Seq<Inode>) -> Seq<(Seq<u8>, u16, u32, bool)> {
    Seq::new(v.len(), |k: int| inode_view(v[k]))
}

/// Whether the bytes of a short name make a name: no zero byte, and UTF-8.
pub open spec fn name_ok(n: Seq<u8>) -> bool {
    &&& forall|k: int| 0 <= k < n.len() ==> #[trigger] n[k] != 0
    &&& vstd::utf8::valid_utf8(n)
}

/// The entry that the 32 bytes of a directory record describe.
pub open spec fn entry_view(e: Seq<u8>) -> (Seq<u8>, u16, u32, bool) {
    (e.subrange(0, 11), le16_at(e, 26) as u16, le32_at(e, 28) as u32, e[11] & 0x10 == 0x10)
}

/// The entries that the records of `buf` from byte `i` on list, up to the
/// first record whose first byte is 0: deleted records (first byte 0xE5) and
/// long-name records (attributes 0x0F) are skipped. `None` where no such
/// record ends the list within `buf`, or a listed name is not `name_ok`.
pub open spec fn dir_children_from(buf: Seq<u8>, i: int) -> Option<Seq<(Seq<u8>, u16, u32, bool)>>
    decreases buf.len() + 32 - i,
{
    if i < 0 || i >= buf.len() {
        None
    } else if buf[i] == 0 {
        Some(Seq::empty())
    } else if buf[i] == 0xE5 {
        dir_children_from(buf, i + 32)
    } else if i + 11 >= buf.len() {
        None
    } else if buf[i + 11] == 0x0F {
        dir_children_from(buf, i + 32)
    } else if i + 32 > buf.len() || !name_ok(buf.subrange(i, i + 11)) {
        None
    } else {
        match dir_children_from(buf, i + 32) {
            Some(rest) => Some(seq![entry_view(buf.subrange(i, i + 32))] + rest),
            None => None,
        }
    }
}

/// Whether the bytes of `n` are a short name (`name_ok`).
fn check_name(n: &[u8]) -> (r: bool)
    ensures
        r == name_ok(n@),
{
    let mut k: usize = 0;
    while k < n.len()
        invariant
            k <= n@.len(),
            forall|j: int| 0 <= j < k ==> #[trigger] n@[j] != 0,
        decreases n@.len() - k,
    {
        if n[k] == 0 {
            return false;
        }
        k = k + 1;
    }
    is_valid_utf8(n)
}

/// The entry that a 32-byte directory record describes.
pub fn build_inode(bytes: &[u8]) -> (r: Inode)
    requires
        bytes@.len() == 32,
        name_ok(bytes@.subrange(0, 11)),
    ensures
        inode_view(r) == entry_view(bytes@),
{
    let name = vstd::slice::slice_to_vec(vstd::slice::slice_subrange(bytes, 0, 11));
    let cluster = (bytes[26] as u16) + 256 * (bytes[27] as u16);
    let file_size = (bytes[28] as u32) + 256 * (bytes[29] as u32) + 65536 * (bytes[30] as u32) + 16777216 * (
    bytes[31] as u32);
    let is_dir = bytes[11] & 0b00010000 == 0b00010000;
    Inode { name, cluster, file_size, is_dir }
}

/// The entries that a sector of directory records lists (`dir_children_from`
/// from its first byte); an error where the list does not end within the
/// sector or a name is not a short name.
pub fn dir_children(buf: &[u8]) -> (r: Result<Vec<Inode>, IoError>)
    ensures
        match r {
            Ok(v) => dir_children_from(buf@, 0) == Some(inodes_view(v@)),
            Err(e) => dir_children_from(buf@, 0) is None && e.kind == IoErrorKind::InvalidData,
        },
{
    let mut children: Vec<Inode> = Vec::new();
    let mut i: usize = 0;
    loop
        invariant
            i <= buf@.len(),
            match dir_children_from(buf@, i as int) {
                Some(rest) => dir_children_from(buf@, 0) == Some(inodes_view(children@) + rest),
                None => dir_children_from(buf@, 0) is None,
            },
        decreases buf@.len() - i,
    {
        if i >= buf.len() {
            return Err(IoError::new(IoErrorKind::InvalidData, "directory has no end entry"));
        }
        if buf[i] == 0x00 {
            proof {
                assert(inodes_view(children@) + Seq::empty() =~= inodes_view(children@));
            }
            return Ok(children);
        }
        if buf[i] == 0xE5 {
            if buf.len() - i < 32 {
                assert(dir_children_from(buf@, i + 32) is None);
                return Err(IoError::new(IoErrorKind::InvalidData, "directory has no end entry"));
            }
            i = i + 32;
            continue;
        }
        if buf.len() - i <= 11 {
            return Err(IoError::new(IoErrorKind::InvalidData, "directory has no end entry"));
        }
        if buf[i + 11] == 0b1111 {
            if buf.len() - i < 32 {
                assert(dir_children_from(buf@, i + 32) is None);
                return Err(IoError::new(IoErrorKind::InvalidData, "directory has no end entry"));
            }
            i = i + 32;
            continue;
        }
        if buf.len() - i < 32 {
            return Err(IoError::new(IoErrorKind::InvalidData, "directory entry runs past the sector"));
        }
        let rec = vstd::slice::slice_subrange(buf, i, i + 32);
        proof {
            assert(rec@.subrange(0, 11) =~= buf@.subrange(i as int, i + 11));
            assert(rec@ =~= buf@.subrange(i as int, i + 32));
        }
        if !check_name(vstd::slice::slice_subrange(rec, 0, 11)) {
            return Err(IoError::new(IoErrorKind::InvalidData, "directory entry name is not a name"));
        }
        let ghost before = inodes_view(children@);
        children.push(build_inode(rec));
        proof {
            assert(inodes_view(children@) =~= before.push(entry_view(rec@)));
            match dir_children_from(buf@, i + 32) {
                Some(rest) => {
                    assert(before + (seq![entry_view(rec@)] + rest) =~= before.push(entry_view(rec@)) + rest);
                },
                None => {},
            }
        }
        i = i + 32;
    }
}

impl BootParams {
    /// The boot-sector fields as the bytes of `b` give them.
    pub open spec fn spec_parse(b: Seq<u8>) -> BootParams {
        BootParams {
            bytes_per_sector: le16_at(b, 11) as u16,
            sectors_per_cluster: b[13],
            num_reserved_sectors: le16_at(b, 14) as u16,
            num_fats: b[16],
            num_root_dir_entries: le16_at(b, 17) as u16,
            total_sectors: if le16_at(b, 19) == 0 {
                le32_at(b, 32) as u32
            } else {
                le16_at(b, 19) as u32
            },
            num_sectors_per_fat: le16_at(b, 22) as u16,
            num_hidden_sectors: le32_at(b, 28) as u32,
        }
    }

    /// Read the boot-sector fields from the first bytes of a boot sector.
    pub fn parse(b: &[u8]) -> (r: BootParams)
        requires
            b@.len() >= 36,
        ensures
            r == BootParams::spec_parse(b@),
    {
        let total16 = le16(b, 19);
        BootParams {
            bytes_per_sector: le16(b, 11),
            sectors_per_cluster: b[13],
            num_reserved_sectors: le16(b, 14),
            num_fats: b[16],
            num_root_dir_entries: le16(b, 17),
            total_sectors: if total16 == 0 {
                le32(b, 32)
            } else {
                total16 as u32
            },
            num_sectors_per_fat: le16(b, 22),
            num_hidden_sectors: le32(b, 28),
        }
    }

    /// The first cluster of the data area: the reserved sectors and the FATs
    /// in clusters, plus the root directory's sectors in clusters, each
    /// computed in 16 bits; `None` where a step overflows or divides by zero.
    pub open spec fn spec_data_cluster_start(self) -> Option<u16> {
        let spc = self.sectors_per_cluster as int;
        let fats = self.num_fats as int * self.num_sectors_per_fat as int;
        let front = self.num_reserved_sectors as int + fats;
        let root_bytes = self.num_root_dir_entries as int * 32;
        if spc == 0 || self.bytes_per_sector == 0 || fats > 0xffff || front > 0xffff || root_bytes > 0xffff {
            None
        } else {
            let start = front / spc + root_bytes / (self.bytes_per_sector as int) / spc;
            if start > 0xffff {
                None
            } else {
                Some(start as u16)
            }
        }
    }

    /// The first cluster of the data area (`spec_data_cluster_start`).
    pub fn data_cluster_start(&self) -> (r: Option<u16>)
        ensures
            r == self.spec_data_cluster_start(),
    {
        let spc = self.sectors_per_cluster as u32;
        let nf = self.num_fats as u32;
        let spf = self.num_sectors_per_fat as u32;
        assert(nf * spf <= 255 * 65535) by (nonlinear_arith)
            requires
                nf <= 255,
                spf <= 65535,
        ;
        let fats = nf * spf;
        let root_bytes = self.num_root_dir_entries as u32 * 32;
        if spc == 0 || self.bytes_per_sector == 0 || fats > 0xffff || self.num_reserved_sectors as u32 + fats > 0xffff
            || root_bytes > 0xffff {
            return None;
        }
        let front = self.num_reserved_sectors as u32 + fats;
        let start = front / spc + root_bytes / (self.bytes_per_sector as u32) / spc;
        if start > 0xffff {
            None
        } else {
            Some(start as u16)
        }
    }
}

/// The little-endian `u16` at `off` of `b`.
fn le16(b: &[u8], off: usize) -> (r: u16)
    requires
        off + 2 <= b@.len(),
    ensures
        r == le16_at(b@, off as int),
{
    (b[off] as u16) + 256 * (b[off + 1] as u16)
}

/// The little-endian `u32` at `off` of `b`.
fn le32(b: &[u8], off: usize) -> (r: u32)
    requires
        off + 4 <= b@.len(),
    ensures
        r == le32_at(b@, off as int),
{
    (b[off] as u32) + 256 * (b[off + 1] as u32) + 65536 * (b[off + 2] as u32) + 16777216 * (b[off + 3] as u32)
}

/// Store the 256 entries of a 512-byte FAT sector at `base` of the table;
/// false, with the table unchanged, where they do not fit.
pub fn fill_fat_sector(cache: &mut Vec<u16>, base: usize, sector: &[u8]) -> (r: bool)
    requires
        sector@.len() == 512,
    ensures
        r == (base + 256 <= old(cache)@.len()),
        final(cache)@.len() == old(cache)@.len(),
        forall|k: int|
            0 <= k < old(cache)@.len() ==> #[trigger] final(cache)@[k] == if r && base <= k < base + 256 {
                le16_at(sector@, 2 * (k - base)) as u16
            } else {
                old(cache)@[k]
            },
{
    if cache.len() < 256 || base > cache.len() - 256 {
        return false;
    }
    let mut j: usize = 0;
    while j < 256
        invariant
            base + 256 <= old(cache)@.len(),
            sector@.len() == 512,
            j <= 256,
            cache@.len() == old(cache)@.len(),
            base + 256 <= cache.len(),
            forall|k: int|
                0 <= k < old(cache)@.len() ==> #[trigger] cache@[k] == if base <= k < base + j {
                    le16_at(sector@, 2 * (k - base)) as u16
                } else {
                    old(cache)@[k]
                },
        decreases 256 - j,
    {
        let v = le16(sector, 2 * j);
        cache.set(base + j, v);
        j = j + 1;
    }
    true
}

/// The name that `get_root` gives the root directory and `get_dir` knows it
/// by: "root" in ASCII.
pub open spec fn root_name() -> Seq<u8> {
    seq![114u8, 111u8, 111u8, 116u8]
}

/// Whether `n` is `root_name()`.
fn is_root_name(n: &Vec<u8>) -> (r: bool)
    ensures
        r == (n@ == root_name()),
{
    if n.len() != 4 {
        return false;
    }
    let r = n[0] == 114 && n[1] == 111 && n[2] == 111 && n[3] == 116;
    proof {
        if r {
            assert(n@ =~= root_name());
        }
    }
    r
}

/// Whether a directory read of `dir` may have given `d`: same name and first
/// cluster, and children that some sector's records list.
pub open spec fn dir_read_from(dir: Inode, d: Directory) -> bool {
    &&& d.name@ == dir.name@
    &&& d.cluster == dir.cluster
    &&& exists|b: Seq<u8>| b.len() == MAX_SECTOR_SIZE && dir_children_from(b, 0) == Some(inodes_view(d.children@))
}

/// Whether the root directory's records `b` list a volume label followed by
/// `children`.
pub open spec fn root_children_from(b: Seq<u8>, children: Seq<(Seq<u8>, u16, u32, bool)>) -> bool {
    match dir_children_from(b, 0) {
        Some(all) => all.len() > 0 && children == all.drop_first(),
        None => false,
    }
}

/// What a read of `amount` bytes at `offset` into a buffer of `out_len`
/// bytes does to open file `f0`, leaving it as `f1`: only where reading ended
/// changes, and only on success; then the count is `read_amount` and fits the
/// buffer, and the file remembers the offset where the read ended.
pub open spec fn read_file_done(f0: File, f1: File, offset: u32, amount: u32, out_len: int, r: Result<u32, IoError>) -> bool {
    &&& f1.name == f0.name
    &&& f1.cluster == f0.cluster
    &&& f1.file_size == f0.file_size
    &&& r is Err ==> f1 == f0
    &&& r matches Ok(n) ==> n == read_amount(offset as int, amount as int, f0.file_size as int) && n <= out_len
        && f1.cache_offset == offset + n
}

/// The open file that `get_file` makes of entry `inode`: reading starts at
/// its first cluster.
pub open spec fn file_of(inode: Inode, f: File) -> bool {
    &&& f.name@ == inode.name@
    &&& f.cluster == inode.cluster
    &&& f.file_size == inode.file_size
    &&& f.cache_offset == 0
    &&& f.cache_cluster == inode.cluster
}

/// How many bytes a read of `amount` bytes at `offset` of a file of
/// `file_size` bytes gets: at most up to the end of the file.
pub open spec fn read_amount(offset: int, amount: int, file_size: int) -> int {
    if offset + amount > file_size {
        file_size - offset
    } else {
        amount
    }
}

/// What a faithful read of the boot sector of `disk` into 512 zeroed bytes
/// gives.
pub open spec fn boot_buffer<D: DiskDevice>(disk: &D) -> Seq<u8> {
    read_into(disk.disk_bytes(), disk.sector_size(), Seq::new(512, |k: int| 0u8), 0)
}

/// What the 512-byte buffer that `Fat16::new` reads into holds after the
/// boot sector and the first `i` FAT sectors (from sector
/// `p.num_reserved_sectors` on) of a faithful disk are read into it.
pub open spec fn load_buffer<D: DiskDevice>(disk: &D, p: BootParams, i: int) -> Seq<u8>
    decreases i,
{
    if i <= 0 {
        boot_buffer(disk)
    } else {
        read_into(disk.disk_bytes(), disk.sector_size(), load_buffer(disk, p, i - 1), p.num_reserved_sectors + (i - 1))
    }
}

/// The FAT cache once the first `i` FAT sectors of a faithful disk are
/// stored: it starts with an entry of 1 for each cluster, and FAT sector `j`
/// fills the 256 entries from `j * (bytes_per_sector / 2)` on. `None` where
/// a sector number or an entry index passes 16 bits, or the entries do not
/// fit the cache.
pub open spec fn fat_load<D: DiskDevice>(disk: &D, p: BootParams, i: int) -> Option<Seq<u16>>
    decreases i,
{
    if i <= 0 {
        Some(Seq::new((p.total_sectors / p.sectors_per_cluster as u32) as nat, |k: int| 1u16))
    } else {
        match fat_load(disk, p, i - 1) {
            None => None,
            Some(c) => {
                let j = i - 1;
                let base = j * (p.bytes_per_sector / 2) as int;
                if p.num_reserved_sectors + j > 0xffff || base > 0xffff || base + 256 > c.len() {
                    None
                } else {
                    let b = load_buffer(disk, p, i);
                    Some(Seq::new(c.len(), |k: int| if base <= k < base + 256 { le16_at(b, 2 * (k - base)) as u16 } else { c[k] }))
                }
            },
        }
    }
}

/// Once storing FAT sectors has failed, it stays failed.
proof fn lemma_fat_load_fails<D: DiskDevice>(disk: &D, p: BootParams, i: int, k: int)
    requires
        0 <= i <= k,
        fat_load(disk, p, i) is None,
    ensures
        fat_load(disk, p, k) is None,
    decreases k - i,
{
    if i < k {
        lemma_fat_load_fails(disk, p, i, k - 1);
    }
}

impl<D: DiskDevice> Fat16<D> {
    /// The boot-sector fields of the file system.
    pub open spec fn params(&self) -> BootParams {
        BootParams {
            bytes_per_sector: self.bytes_per_sector,
            sectors_per_cluster: self.sectors_per_cluster,
            num_reserved_sectors: self.num_reserved_sectors,
            num_fats: self.num_fats,
            num_root_dir_entries: self.num_root_dir_entries,
            total_sectors: self.total_sectors,
            num_sectors_per_fat: self.num_sectors_per_fat,
            num_hidden_sectors: self.num_hidden_sectors,
        }
    }

    /// The reader's invariant: clusters have sectors, the table has an entry
    /// for each cluster, and the data area starts where the fields say.
    pub open spec fn wf(&self) -> bool {
        &&& self.sectors_per_cluster > 0
        &&& self.fat_cache@.len() == self.total_sectors as int / self.sectors_per_cluster as int
        &&& self.params().spec_data_cluster_start() == Some(self.data_cluster_start)
    }

    /// Read the boot sector of `disk`, then its first FAT into memory, one
    /// 512-byte sector after another.
    pub fn new(disk: D) -> (r: Result<Fat16<D>, IoError>)
        ensures
            r matches Ok(f) ==> f.wf() && f.disk == disk,
            disk.reads_faithfully() ==> {
                let p = BootParams::spec_parse(boot_buffer(&disk));
                if p.sectors_per_cluster == 0 {
                    r matches Err(e) && e.kind == IoErrorKind::InvalidData
                } else {
                    match (fat_load(&disk, p, p.num_sectors_per_fat as int), p.spec_data_cluster_start()) {
                        (Some(c), Some(dcs)) => r matches Ok(f) && f.params() == p && f.fat_cache@ == c && f.data_cluster_start
                            == dcs,
                        _ => r matches Err(e) && e.kind == IoErrorKind::InvalidData,
                    }
                }
            },
    {
        let mut buf: Vec<u8> = vec![0u8; 512];
        assert(buf@ =~= Seq::new(512, |k: int| 0u8));
        disk.read_at(buf.as_mut_slice(), 0)?;
        let p = BootParams::parse(buf.as_slice());
        if p.sectors_per_cluster == 0 {
            return Err(IoError::new(IoErrorKind::InvalidData, "boot sector gives no sectors per cluster"));
        }
        proof {
            if disk.reads_faithfully() {
                assert(buf@ == load_buffer(&disk, p, 0));
                assert(p == BootParams::spec_parse(boot_buffer(&disk)));
            }
        }
        let n = (p.total_sectors / p.sectors_per_cluster as u32) as usize;
        let mut fat_cache: Vec<u16> = vec![1u16; n];
        proof {
            assert(fat_cache@ =~= Seq::new((p.total_sectors / p.sectors_per_cluster as u32) as nat, |k: int| 1u16));
        }
        let mut i: u16 = 0;
        while i < p.num_sectors_per_fat
            invariant
                fat_cache@.len() == n,
                buf@.len() == 512,
                p.sectors_per_cluster != 0,
                n == (p.total_sectors / p.sectors_per_cluster as u32) as usize,
                i <= p.num_sectors_per_fat,
                disk.reads_faithfully() ==> p == BootParams::spec_parse(boot_buffer(&disk)),
                disk.reads_faithfully() ==> buf@ == load_buffer(&disk, p, i as int) && fat_load(&disk, p, i as int) == Some(
                    fat_cache@,
                ),
            decreases p.num_sectors_per_fat - i,
        {
            let ghost c0 = fat_cache@;
            if p.num_reserved_sectors as u32 + i as u32 > 0xffff {
                proof {
                    if disk.reads_faithfully() {
                        lemma_fat_load_fails(&disk, p, i + 1, p.num_sectors_per_fat as int);
                    }
                }
                return Err(IoError::new(IoErrorKind::InvalidData, "FAT sector number out of range"));
            }
            disk.read_at(buf.as_mut_slice(), (p.num_reserved_sectors + i) as usize)?;
            assert(disk.reads_faithfully() ==> buf@ == load_buffer(&disk, p, i + 1));
            let half = p.bytes_per_sector / 2;
            assert(i as u32 * half as u32 <= 0xffff * 0xffff) by (nonlinear_arith)
                requires
                    i <= 0xffff,
                    half <= 0xffff,
            ;
            if i as u32 * half as u32 > 0xffff {
                proof {
                    if disk.reads_faithfully() {
                        lemma_fat_load_fails(&disk, p, i + 1, p.num_sectors_per_fat as int);
                    }
                }
                return Err(IoError::new(IoErrorKind::InvalidData, "FAT entry index out of range"));
            }
            let base = (i * half) as usize;
            if !fill_fat_sector(&mut fat_cache, base, buf.as_slice()) {
                proof {
                    if disk.reads_faithfully() {
                        lemma_fat_load_fails(&disk, p, i + 1, p.num_sectors_per_fat as int);
                    }
                }
                return Err(IoError::new(IoErrorKind::InvalidData, "FAT is larger than the file system"));
            }
            proof {
                if disk.reads_faithfully() {
                    let b = load_buffer(&disk, p, i + 1);
                    assert(fat_cache@ =~= Seq::new(c0.len(), |k: int| if base <= k < base + 256 { le16_at(b, 2 * (k - base)) as u16 } else { c0[k] }));
                }
            }
            i = i + 1;
        }
        let data_cluster_start = match p.data_cluster_start() {
            Some(d) => d,
            None => return Err(IoError::new(IoErrorKind::InvalidData, "data area start out of range")),
        };
        Ok(
            Fat16 {
                disk,
                bytes_per_sector: p.bytes_per_sector,
                sectors_per_cluster: p.sectors_per_cluster,
                num_reserved_sectors: p.num_reserved_sectors,
                num_fats: p.num_fats,
                num_root_dir_entries: p.num_root_dir_entries,
                total_sectors: p.total_sectors,
                num_sectors_per_fat: p.num_sectors_per_fat,
                num_hidden_sectors: p.num_hidden_sectors,
                data_cluster_start,
                fat_cache,
            },
        )
    }

    /// The disk sector of sector `sector` of the data area: the data area's
    /// first cluster, less two, in sectors (in 16 bits), plus `sector`.
    pub open spec fn spec_data_sector(&self, sector: int) -> Option<int> {
        let m = (self.data_cluster_start as int - 2) * self.sectors_per_cluster as int;
        if self.data_cluster_start < 2 || m > 0xffff || m + sector > usize::MAX {
            None
        } else {
            Some(m + sector)
        }
    }

    /// Read from sector `sector` of the data area (`spec_data_sector`).
    fn disk_read(&self, buf: &mut [u8], sector: usize) -> (r: Result<usize, IoError>)
        ensures
            final(buf)@.len() == old(buf)@.len(),
            r matches Ok(n) ==> n <= old(buf)@.len(),
            self.spec_data_sector(sector as int) is None ==> r is Err,
            self.disk.reads_faithfully() ==> (self.spec_data_sector(sector as int) matches Some(sec) ==> r == Ok::<usize, IoError>(
                read_length(self.disk.disk_bytes(), self.disk.sector_size(), old(buf)@.len() as int, sec) as usize,
            ) && final(buf)@ == read_into(self.disk.disk_bytes(), self.disk.sector_size(), old(buf)@, sec)),
    {
        if self.data_cluster_start < 2 {
            return Err(IoError::new(IoErrorKind::InvalidData, "data area starts before cluster 2"));
        }
        let a = (self.data_cluster_start - 2) as u32;
        let spc = self.sectors_per_cluster as u32;
        assert(a * spc <= 0xffff * 0xff) by (nonlinear_arith)
            requires
                a <= 0xffff,
                spc <= 0xff,
        ;
        let m = a * spc;
        if m > 0xffff || sector > usize::MAX - m as usize {
            return Err(IoError::new(IoErrorKind::InvalidData, "data sector out of range"));
        }
        self.disk.read_at(buf, m as usize + sector)
    }

    /// The disk sector of the root directory: the data area's first sector
    /// less the root directory's sectors; `None` where a step overflows.
    pub open spec fn spec_root_dir_sector(&self) -> Option<int> {
        let root_bytes = self.num_root_dir_entries as int * 32;
        if root_bytes > 0xffff || self.bytes_per_sector == 0 {
            None
        } else {
            let s = self.data_cluster_start as int * self.sectors_per_cluster as int - root_bytes
                / self.bytes_per_sector as int;
            if s < 0 {
                None
            } else {
                Some(s)
            }
        }
    }

    /// Where on the disk byte `p` of the file whose first cluster is `c0`
    /// lies: the file's sector `p / bytes_per_sector` is sector
    /// `(p / bytes_per_sector) % sectors_per_cluster` of the
    /// `(p / bytes_per_sector) / sectors_per_cluster`-th cluster of its chain,
    /// and the byte is `p % bytes_per_sector` into it. `None` where the chain
    /// or the sector number leaves the FAT or the data area.
    pub open spec fn file_byte_at(&self, c0: u16, p: int) -> Option<int> {
        let bps = self.bytes_per_sector as int;
        let spc = self.sectors_per_cluster as int;
        let k = p / bps;
        match chain_cluster(self.fat_cache@, c0, k / spc) {
            Some(c) => match self.spec_data_sector(c as int * spc + k % spc) {
                Some(sec) => Some(sec * self.disk.sector_size() + p % bps),
                None => None,
            },
            None => None,
        }
    }

    /// Whether a read of open file `f` from byte `offset` reads a faithful disk
    /// from the file's start: `offset` is 0, and the file does not remember a
    /// cluster other than its first for that offset.
    pub open spec fn reads_from_start(&self, f: File, offset: u32) -> bool {
        &&& self.disk.reads_faithfully()
        &&& offset == 0
        &&& f.cache_offset == 0 ==> f.cache_cluster == f.cluster
    }

    /// Whether `out[p]` holds byte `p` of the file whose first cluster is `c0`
    /// (`file_byte_at`), where that byte lies within the disk.
    pub open spec fn byte_read(&self, c0: u16, out: Seq<u8>, p: int) -> bool {
        &&& self.file_byte_at(c0, p) matches Some(i)
        &&& i < self.disk.disk_bytes().len() ==> out[p] == self.disk.disk_bytes()[i]
    }

    /// Whether `out` begins with the first `n` bytes of the file whose first
    /// cluster is `c0`: those of the sectors of its cluster chain, in order.
    pub open spec fn read_gives(&self, c0: u16, out: Seq<u8>, n: int) -> bool {
        forall|p: int| 0 <= p < n ==> #[trigger] self.byte_read(c0, out, p)
    }

    /// Copying the first `m` bytes of `b`, what a faithful read of the disk
    /// sector of file sector `k` gave, to `out` from byte `k * bps` on puts
    /// there the file's bytes from `k * bps` on.
    proof fn lemma_sector_copied(&self, c0: u16, c: u16, sector: u32, k: int, ob: Seq<u8>, b: Seq<u8>, out: Seq<u8>, m: int)
        requires
            self.wf(),
            0 < self.bytes_per_sector,
            0 <= k,
            0 <= m <= self.bytes_per_sector,
            m <= 4096,
            ob.len() == 4096,
            chain_cluster(self.fat_cache@, c0, k / (self.sectors_per_cluster as int)) == Some(c),
            sector == c as int * self.sectors_per_cluster as int + k % (self.sectors_per_cluster as int),
            self.spec_data_sector(sector as int) matches Some(sec) && b == read_into(
                self.disk.disk_bytes(),
                self.disk.sector_size(),
                ob,
                sec,
            ),
            k * self.bytes_per_sector + m <= out.len(),
            forall|q: int| 0 <= q < m ==> #[trigger] out[k * self.bytes_per_sector + q] == b[q],
        ensures
            forall|p: int| k * self.bytes_per_sector <= p < k * self.bytes_per_sector + m ==> #[trigger] self.byte_read(c0, out, p),
    {
        let bps = self.bytes_per_sector as int;
        let sec = self.spec_data_sector(sector as int)->0;
        let ss = self.disk.sector_size();
        let d = self.disk.disk_bytes();
        assert forall|p: int| k * bps <= p < k * bps + m implies #[trigger] self.byte_read(c0, out, p) by {
            let q = p - k * bps;
            vstd::arithmetic::div_mod::lemma_fundamental_div_mod_converse(p, bps, k, q);
            assert(out[k * bps + q] == b[q]);
            assert(sec * ss >= 0) by (nonlinear_arith)
                requires sec >= 0, ss >= 0;
            if sec * ss + q < d.len() {
                assert(read_length(d, ss, 4096, sec) > q);
            }
        }
    }

    /// After the last whole sector of a read of `count` bytes, `amount_read`
    /// (`k` sectors of `bps` bytes) reached, what is left is less than a
    /// sector.
    proof fn lemma_last_sector(&self, k: int, bps: int, count: int, amount_read: int)
        requires
            0 < bps,
            0 <= k,
            0 <= count,
            amount_read == k * bps,
            amount_read / bps >= count / bps,
        ensures
            count - amount_read < bps,
    {
        vstd::arithmetic::div_mod::lemma_fundamental_div_mod_converse(amount_read, bps, k, 0);
        vstd::arithmetic::div_mod::lemma_fundamental_div_mod(count, bps);
        vstd::arithmetic::div_mod::lemma_mod_pos_bound(count, bps);
        let cq = count / bps;
        let cr = count % bps;
        assert(k >= cq);
        assert(count - amount_read < bps) by (nonlinear_arith)
            requires
                0 < bps,
                count == bps * cq + cr,
                cr < bps,
                k >= cq,
                amount_read == k * bps,
        ;
    }

    /// The disk sector where directory `dir` starts: the root directory's
    /// where its name is `root_name()`, else that of its first cluster.
    pub open spec fn dir_sector(&self, dir: Inode) -> Option<int> {
        if dir.name@ == root_name() {
            self.spec_root_dir_sector()
        } else {
            self.spec_data_sector(dir.cluster * self.sectors_per_cluster)
        }
    }

    /// The 4096 bytes that a faithful read of the sector where directory `dir`
    /// starts gives, into a zeroed buffer.
    pub open spec fn dir_buffer(&self, dir: Inode) -> Option<Seq<u8>> {
        match self.dir_sector(dir) {
            Some(sec) => Some(
                read_into(self.disk.disk_bytes(), self.disk.sector_size(), Seq::new(4096, |i: int| 0u8), sec),
            ),
            None => None,
        }
    }

    /// Read the first sector of directory `dir` (the root directory where its
    /// name is `root_name()`) and list its entries.
    pub fn get_dir(&self, dir: &Inode) -> (r: Result<Directory, IoError>)
        ensures
            r matches Ok(d) ==> dir_read_from(*dir, d),
            dir.name@ == root_name() && self.spec_root_dir_sector() is None ==> r is Err,
            dir.name@ != root_name() && self.spec_data_sector(dir.cluster * self.sectors_per_cluster) is None ==> r is Err,
            self.disk.reads_faithfully() ==> match self.dir_buffer(*dir) {
                Some(b) => match dir_children_from(b, 0) {
                    Some(ch) => r matches Ok(d) && d.name@ == dir.name@ && d.cluster == dir.cluster && inodes_view(d.children@)
                        == ch,
                    None => r is Err,
                },
                None => r is Err,
            },
    {
        let mut buf: Vec<u8> = vec![0u8; 4096];
        assert(buf@ =~= Seq::new(4096, |i: int| 0u8));
        if is_root_name(&dir.name) {
            let root_bytes = self.num_root_dir_entries as u32 * 32;
            if root_bytes > 0xffff || self.bytes_per_sector == 0 {
                return Err(IoError::new(IoErrorKind::InvalidData, "root directory size out of range"));
            }
            let back = (root_bytes / self.bytes_per_sector as u32) as usize;
            let dcs = self.data_cluster_start as u32;
            let spc = self.sectors_per_cluster as u32;
            assert(dcs * spc <= 0xffff * 0xff) by (nonlinear_arith)
                requires
                    dcs <= 0xffff,
                    spc <= 0xff,
            ;
            let start = (dcs * spc) as usize;
            if start < back {
                return Err(IoError::new(IoErrorKind::InvalidData, "root directory starts before the disk"));
            }
            self.disk.read_at(buf.as_mut_slice(), start - back)?;
        } else {
            let c = dir.cluster as u32;
            let spc = self.sectors_per_cluster as u32;
            assert(c * spc <= 0xffff * 0xff) by (nonlinear_arith)
                requires
                    c <= 0xffff,
                    spc <= 0xff,
            ;
            self.disk_read(buf.as_mut_slice(), (c * spc) as usize)?;
        }
        let children = dir_children(buf.as_slice())?;
        let d = Directory { name: dir.name.clone(), cluster: dir.cluster, children };
        assert(d.name@ =~= dir.name@);
        assert(buf@.len() == MAX_SECTOR_SIZE && dir_children_from(buf@, 0) == Some(inodes_view(d.children@)));
        Ok(d)
    }

    /// The root directory: the entries of its first sector but the first
    /// (the volume label).
    pub fn get_root(&self) -> (r: Result<Directory, IoError>)
        ensures
            r matches Ok(d) ==> d.name@ == root_name() && d.cluster == 0 && exists|b: Seq<u8>|
                b.len() == MAX_SECTOR_SIZE && #[trigger] root_children_from(b, inodes_view(d.children@)),
    {
        let bps = self.bytes_per_sector as u32;
        let root_bytes = self.num_root_dir_entries as u32 * 32;
        if root_bytes > 0xffff || bps == 0 || root_bytes + (bps - 1) > 0xffff {
            return Err(IoError::new(IoErrorKind::InvalidData, "root directory size out of range"));
        }
        let file_size: u32 = (root_bytes + (bps - 1)) / bps;
        let root = Inode { name: vec![114u8, 111u8, 111u8, 116u8], cluster: 0, file_size, is_dir: true };
        assert(root.name@ =~= root_name());
        let mut res = self.get_dir(&root)?;
        if res.children.len() == 0 {
            return Err(IoError::new(IoErrorKind::InvalidData, "root directory has no volume label"));
        }
        let ghost all = inodes_view(res.children@);
        let ghost b = choose|b: Seq<u8>| b.len() == MAX_SECTOR_SIZE && dir_children_from(b, 0) == Some(all);
        res.children.remove(0);
        assert(inodes_view(res.children@) =~= all.drop_first());
        assert(b.len() == MAX_SECTOR_SIZE && root_children_from(b, inodes_view(res.children@)));
        Ok(res)
    }

    /// The file or directory that entry `location` names.
    pub fn get_inode(&self, location: &Inode) -> (r: Result<FSEntry, IoError>)
        ensures
            location.is_dir ==> (r matches Ok(e) ==> (e matches FSEntry::Dir(d) && dir_read_from(*location, d))),
            !location.is_dir ==> (r matches Ok(FSEntry::F(f)) && file_of(*location, f)),
    {
        if location.is_dir {
            Ok(FSEntry::Dir(self.get_dir(location)?))
        } else {
            Ok(FSEntry::F(self.get_file(location)?))
        }
    }

    /// Open the file that entry `inode` names.
    pub fn get_file(&self, inode: &Inode) -> (r: Result<File, IoError>)
        ensures
            r matches Ok(f) && file_of(*inode, f),
    {
        Ok(
            File {
                name: inode.name.clone(),
                cluster: inode.cluster,
                file_size: inode.file_size,
                cache_offset: 0,
                cache_cluster: inode.cluster,
            },
        )
    }

    /// Move on from sector `sector` of cluster `c` to the next sector; where
    /// that starts a new cluster, go to the first sector of the cluster that
    /// follows `c` in the table.
    fn next_sector(&self, c: u16, sector: u32) -> (r: Result<(u16, u32), IoError>)
        requires
            self.wf(),
            c as int * self.sectors_per_cluster as int <= sector,
            sector < c as int * self.sectors_per_cluster as int + self.sectors_per_cluster as int,
        ensures
            r matches Ok((c2, s2)) ==> c2 as int * self.sectors_per_cluster as int <= s2 && s2 < c2 as int
                * self.sectors_per_cluster as int + self.sectors_per_cluster as int,
            r matches Ok((c2, s2)) ==> if (sector + 1) % (self.sectors_per_cluster as int) == 0 {
                (c as int) < self.fat_cache@.len() && c2 == self.fat_cache@[c as int] && s2 == c2 as int
                    * self.sectors_per_cluster as int
            } else {
                c2 == c && s2 == sector + 1
            },
            r is Err ==> (sector + 1) % (self.sectors_per_cluster as int) == 0 && c as int >= self.fat_cache@.len(),
    {
        let spc = self.sectors_per_cluster as u32;
        assert(c as int * spc as int <= 0xffff * 0xff) by (nonlinear_arith)
            requires
                c <= 0xffff,
                spc <= 0xff,
        ;
        let s = sector + 1;
        if s % spc == 0 {
            if c as usize >= self.fat_cache.len() {
                return Err(IoError::new(IoErrorKind::InvalidData, "file's cluster chain leaves the FAT"));
            }
            let c2 = self.fat_cache[c as usize];
            assert(c2 as int * spc as int <= 0xffff * 0xff) by (nonlinear_arith)
                requires
                    c2 <= 0xffff,
                    spc <= 0xff,
            ;
            Ok((c2, c2 as u32 * spc))
        } else {
            proof {
                if s == c as int * spc as int + spc as int {
                    vstd::arithmetic::div_mod::lemma_mod_multiples_basic(c as int + 1, spc as int);
                    assert((c as int + 1) * spc as int == c as int * spc as int + spc as int) by (nonlinear_arith);
                }
            }
            Ok((c, s))
        }
    }

    /// Read up to `amount` bytes of `file` from byte `offset` into `out`, no
    /// further than the end of the file. Reading goes sector by sector from
    /// the cluster where the last read ended when `offset` is where it ended,
    /// else from the cluster that `offset` lies in; afterwards the file
    /// remembers where this read ended. Directories cannot be read. A read of
    /// a faithful disk from the file's start (`reads_from_start`) that gets `n`
    /// bytes puts in `out` the file's first `n` bytes: those of the sectors of
    /// its cluster chain, in order (`read_gives`).
    pub fn read_file_at(&self, file: &mut FSEntry, offset: u32, out: &mut [u8], amount: u32) -> (r: Result<u32, IoError>)
        requires
            self.wf(),
        ensures
            final(out)@.len() == old(out)@.len(),
            match *old(file) {
                FSEntry::Dir(_) => *final(file) == *old(file) && (r matches Err(e) && e.kind == IoErrorKind::InvalidInput),
                FSEntry::F(f0) => *final(file) matches FSEntry::F(f1) && read_file_done(f0, f1, offset, amount, old(out)@.len() as int, r)
                    && (self.reads_from_start(f0, offset) ==> (r matches Ok(n) ==> self.read_gives(f0.cluster, final(out)@, n as int))),
            },
    {
        match file {
            FSEntry::Dir(_) => Err(IoError::new(IoErrorKind::InvalidInput, "trying to read a directory")),
            FSEntry::F(f) => self.read_file(f, offset, out, amount),
        }
    }

    /// `read_file_at` on a file.
    fn read_file(&self, f: &mut File, offset: u32, out: &mut [u8], amount: u32) -> (r: Result<u32, IoError>)
        requires
            self.wf(),
        ensures
            final(out)@.len() == old(out)@.len(),
            read_file_done(*old(f), *final(f), offset, amount, old(out)@.len() as int, r),
            self.reads_from_start(*old(f), offset) ==> (r matches Ok(n) ==> self.read_gives(old(f).cluster, final(out)@, n as int)),
    {
        let ghost c0 = f.cluster;
        let ghost track = self.reads_from_start(*f, offset);
        let ghost dbytes = self.disk.disk_bytes();
        let ghost ss = self.disk.sector_size();
        let cluster = f.cluster;
        let file_size = f.file_size;
        if amount > u32::MAX - offset {
            return Err(IoError::new(IoErrorKind::InvalidInput, "read extends past the largest offset"));
        }
        let mut count = amount;
        if offset + count > file_size {
            if offset > file_size {
                return Err(IoError::new(IoErrorKind::InvalidInput, "read starts past the end of the file"));
            }
            count = file_size - offset;
        }
        let mut curr_cluster: u16;
        if offset == f.cache_offset {
            curr_cluster = f.cache_cluster;
        } else {
            curr_cluster = match self.get_curr_cluster(cluster, offset) {
                Some(c) => c,
                None => return Err(IoError::new(IoErrorKind::InvalidData, "file's cluster chain leaves the FAT")),
            };
        }
        let bps = self.bytes_per_sector as u32;
        let spc = self.sectors_per_cluster as u32;
        assert(curr_cluster as int * spc as int <= 0xffff * 0xff) by (nonlinear_arith)
            requires
                curr_cluster <= 0xffff,
                spc <= 0xff,
        ;
        let within = (offset / bps) % spc;
        assert(within < spc);
        let mut curr_sector: u32 = curr_cluster as u32 * spc + within;
        let mut amount_read: u32 = 0;
        let ghost mut k: int = 0;
        proof {
            if track && bps > 0 {
                assert((bps as int) * (spc as int) > 0) by (nonlinear_arith)
                    requires bps > 0, spc > 0;
                assert(curr_cluster == c0);
                assert(within == 0);
                assert(0int / (spc as int) == 0 && 0int % (spc as int) == 0);
            }
        }
        let mut buf: Vec<u8> = vec![0u8; 4096];
        if bps == 0xffff {
            return Err(IoError::new(IoErrorKind::InvalidData, "sector size out of range"));
        }
        if (offset + count) / (bps + 1) > 0 {
            // first the rest of the sector that `offset` lies in
            let ghost ob1 = buf@;
            self.disk_read(buf.as_mut_slice(), curr_sector as usize)?;
            let ghost b1 = buf@;
            if offset >= bps || bps > 4096 || (bps - offset) as usize > out.len() {
                return Err(IoError::new(IoErrorKind::InvalidInput, "read does not fit the buffer"));
            }
            let mut i: u32 = offset;
            while i < bps
                invariant
                    offset <= i <= bps <= 4096,
                    bps - offset <= out@.len(),
                    buf@.len() == 4096,
                    buf@ == b1,
                    out@.len() == old(out)@.len(),
                    forall|q: int| 0 <= q < i - offset ==> #[trigger] out@[q] == b1[q + offset],
                decreases bps - i,
            {
                out[(i - offset) as usize] = buf[i as usize];
                i = i + 1;
            }
            amount_read = bps - offset;
            proof {
                if track {
                    self.lemma_sector_copied(c0, curr_cluster, curr_sector, 0, ob1, b1, out@, bps as int);
                    k = 1;
                }
            }
            let ghost pc = curr_cluster;
            let ghost ps = curr_sector;
            let (c2, s2) = self.next_sector(curr_cluster, curr_sector)?;
            curr_cluster = c2;
            curr_sector = s2;
            proof {
                if track {
                    lemma_next_file_sector(self.fat_cache@, c0, pc, 0, spc as int);
                    assert(0int % (spc as int) == 0 && 0int / (spc as int) == 0);
                }
            }
            while amount_read / bps < count / bps
                invariant
                    self.wf(),
                    bps == self.bytes_per_sector,
                    spc == self.sectors_per_cluster,
                    0 < bps <= 4096,
                    amount_read <= out@.len(),
                    buf@.len() == 4096,
                    out@.len() == old(out)@.len(),
                    curr_cluster as int * spc as int <= curr_sector,
                    curr_sector < curr_cluster as int * spc as int + spc as int,
                    track == self.reads_from_start(*old(f), offset),
                    c0 == old(f).cluster,
                    track ==> {
                        &&& offset == 0
                        &&& k >= 1
                        &&& amount_read == k * bps
                        &&& chain_cluster(self.fat_cache@, c0, k / (spc as int)) == Some(curr_cluster)
                        &&& curr_sector == curr_cluster as int * spc as int + k % (spc as int)
                        &&& self.read_gives(c0, out@, amount_read as int)
                    },
                decreases out@.len() - amount_read,
            {
                let ghost ob2 = buf@;
                self.disk_read(buf.as_mut_slice(), curr_sector as usize)?;
                let ghost b2 = buf@;
                if amount_read as u64 + bps as u64 > out.len() as u64 {
                    return Err(IoError::new(IoErrorKind::InvalidInput, "read does not fit the buffer"));
                }
                if amount_read as u64 + bps as u64 > u32::MAX as u64 {
                    return Err(IoError::new(IoErrorKind::InvalidInput, "read extends past the largest offset"));
                }
                let ghost o1 = out@;
                let mut i: u32 = 0;
                while i < bps
                    invariant
                        i <= bps <= 4096,
                        amount_read + bps <= out@.len(),
                        amount_read + bps <= u32::MAX,
                        buf@.len() == 4096,
                        buf@ == b2,
                        out@.len() == old(out)@.len(),
                        o1.len() == out@.len(),
                        forall|q: int| 0 <= q < amount_read ==> #[trigger] out@[q] == o1[q],
                        forall|q: int| 0 <= q < i ==> #[trigger] out@[amount_read + q] == b2[q],
                    decreases bps - i,
                {
                    out[(amount_read + i) as usize] = buf[i as usize];
                    i = i + 1;
                }
                proof {
                    if track {
                        self.lemma_sector_copied(c0, curr_cluster, curr_sector, k, ob2, b2, out@, bps as int);
                        assert forall|p: int| 0 <= p < amount_read + bps implies self.byte_read(c0, out@, p) by {
                            if p < amount_read {
                                assert(self.byte_read(c0, o1, p));
                                assert(out@[p] == o1[p]);
                            }
                        }
                    }
                }
                amount_read = amount_read + bps;
                let ghost pc = curr_cluster;
                let (c2, s2) = self.next_sector(curr_cluster, curr_sector)?;
                curr_cluster = c2;
                curr_sector = s2;
                proof {
                    if track {
                        lemma_next_file_sector(self.fat_cache@, c0, pc, k, spc as int);
                        k = k + 1;
                        assert(amount_read == k * bps) by (nonlinear_arith)
                            requires amount_read == (k - 1) * bps + bps;
                    }
                }
            }
            proof {
                if track {
                    self.lemma_last_sector(k, bps as int, count as int, amount_read as int);
                }
            }
        } else {
            proof {
                if track {
                    vstd::arithmetic::div_mod::lemma_fundamental_div_mod(count as int, bps + 1);
                    vstd::arithmetic::div_mod::lemma_mod_pos_bound(count as int, bps + 1);
                    let d = bps as int + 1;
                    let cm = count as int % d;
                    assert(count as int / d == 0);
                    assert(count == cm) by (nonlinear_arith)
                        requires count == d * 0 + cm;
                    assert(count <= bps);
                }
            }
        }
        // then the start of the sector that the read ends in
        assert(curr_cluster as int * spc as int <= 0xffff * 0xff) by (nonlinear_arith)
            requires
                curr_cluster <= 0xffff,
                spc <= 0xff,
        ;
        assert(curr_sector < curr_cluster as int * spc as int + spc as int);
        let ghost ob3 = buf@;
        self.disk_read(buf.as_mut_slice(), curr_sector as usize)?;
        let ghost b3 = buf@;
        if amount_read > count {
            return Err(IoError::new(IoErrorKind::InvalidInput, "read ends before the first sector does"));
        }
        let rest = count - amount_read;
        if rest > 0 && (rest > 4096 || count as u64 > out.len() as u64) {
            return Err(IoError::new(IoErrorKind::InvalidInput, "read does not fit the buffer"));
        }
        let ghost o1 = out@;
        let mut i: u32 = 0;
        while i < rest
            invariant
                i <= rest,
                amount_read + rest == count,
                rest > 0 ==> rest <= 4096 && amount_read + rest <= out@.len(),
                buf@.len() == 4096,
                buf@ == b3,
                out@.len() == old(out)@.len(),
                o1.len() == out@.len(),
                forall|q: int| 0 <= q < amount_read && q < out@.len() ==> #[trigger] out@[q] == o1[q],
                forall|q: int| 0 <= q < i ==> #[trigger] out@[amount_read + q] == b3[q],
            decreases rest - i,
        {
            out[(amount_read + i) as usize] = buf[i as usize];
            i = i + 1;
        }
        proof {
            if track {
                if rest > 0 {
                    self.lemma_sector_copied(c0, curr_cluster, curr_sector, k, ob3, b3, out@, rest as int);
                }
                assert forall|p: int| 0 <= p < count implies self.byte_read(c0, out@, p) by {
                    if p < amount_read {
                        assert(self.byte_read(c0, o1, p));
                        assert(out@[p] == o1[p]);
                    }
                }
            }
        }
        if (count + offset) % bps == 0 {
            curr_sector = curr_sector + 1;
        }
        if curr_sector % spc == 0 && curr_cluster != f.cluster {
            if curr_cluster as usize >= self.fat_cache.len() {
                return Err(IoError::new(IoErrorKind::InvalidData, "file's cluster chain leaves the FAT"));
            }
            curr_cluster = self.fat_cache[curr_cluster as usize];
        }
        f.cache_offset = offset + count;
        f.cache_cluster = curr_cluster;
        Ok(count)
    }

    /// The cluster that byte `offset` of a file starting at cluster
    /// `initial_cluster` lies in (`spec_curr_cluster` with clusters of
    /// `bytes_per_sector * sectors_per_cluster` bytes).
    fn get_curr_cluster(&self, initial_cluster: u16, offset: u32) -> (r: Option<u16>)
        requires
            self.wf(),
        ensures
            r == spec_curr_cluster(
                self.fat_cache@,
                initial_cluster,
                offset as int,
                self.bytes_per_sector as int * self.sectors_per_cluster as int,
            ),
    {
        let bps = self.bytes_per_sector as u32;
        let spc = self.sectors_per_cluster as u32;
        assert(bps * spc <= 0xffff * 0xff && bps * spc > 0) by (nonlinear_arith)
            requires
                0 < bps <= 0xffff,
                0 < spc <= 0xff,
        ;
        let step = bps * spc;
        let mut off = offset;
        let mut fat_offset = initial_cluster;
        while off > step
            invariant
                step == self.bytes_per_sector as int * self.sectors_per_cluster as int,
                step > 0,
                spec_curr_cluster(self.fat_cache@, fat_offset, off as int, step as int) == spec_curr_cluster(
                    self.fat_cache@,
                    initial_cluster,
                    offset as int,
                    step as int,
                ),
            decreases off,
        {
            if fat_offset as usize >= self.fat_cache.len() {
                assert(spec_curr_cluster(self.fat_cache@, fat_offset, off as int, step as int) is None);
                return None;
            }
            off = off - step;
            fat_offset = self.fat_cache[fat_offset as usize];
        }
        Some(fat_offset)
    }
}

/// The cluster `j` clusters on from cluster `c0` along the FAT `table`:
/// `c0` itself for `j` 0, then each next one the entry of the one before;
/// `None` once an entry lies past the table.
pub open spec fn chain_cluster(table: Seq<u16>, c0: u16, j: int) -> Option<u16>
    decreases j,
{
    if j <= 0 {
        Some(c0)
    } else {
        match chain_cluster(table, c0, j - 1) {
            Some(c) => if (c as int) < table.len() {
                Some(table[c as int])
            } else {
                None
            },
            None => None,
        }
    }
}

/// Moving from the sector of file sector `k` (sector `k % spc` of cluster
/// `c`, the `k / spc`-th of the chain) to the next one: a new cluster starts
/// exactly when that sector was the cluster's last.
proof fn lemma_next_file_sector(table: Seq<u16>, c0: u16, c: u16, k: int, spc: int)
    requires
        0 <= k,
        0 < spc,
        chain_cluster(table, c0, k / spc) == Some(c),
    ensures
        ((c * spc + k % spc + 1) % spc == 0) == (k % spc + 1 == spc),
        k % spc + 1 == spc ==> (k + 1) / spc == k / spc + 1 && (k + 1) % spc == 0 && ((c as int) < table.len()
            ==> chain_cluster(table, c0, (k + 1) / spc) == Some(table[c as int])),
        k % spc + 1 != spc ==> (k + 1) / spc == k / spc && (k + 1) % spc == k % spc + 1 && chain_cluster(
            table,
            c0,
            (k + 1) / spc,
        ) == Some(c),
{
    let q = k / spc;
    let r = k % spc;
    vstd::arithmetic::div_mod::lemma_fundamental_div_mod(k, spc);
    assert(k == spc * q + r);
    if r + 1 == spc {
        assert(k + 1 == (q + 1) * spc + 0) by (nonlinear_arith)
            requires k == spc * q + r, r + 1 == spc;
        vstd::arithmetic::div_mod::lemma_fundamental_div_mod_converse(k + 1, spc, q + 1, 0);
        assert(c * spc + r + 1 == (c + 1) * spc + 0) by (nonlinear_arith)
            requires r + 1 == spc;
        vstd::arithmetic::div_mod::lemma_fundamental_div_mod_converse(c * spc + r + 1, spc, c + 1, 0);
    } else {
        assert(k + 1 == q * spc + (r + 1)) by (nonlinear_arith)
            requires k == spc * q + r;
        vstd::arithmetic::div_mod::lemma_fundamental_div_mod_converse(k + 1, spc, q, r + 1);
        vstd::arithmetic::div_mod::lemma_fundamental_div_mod_converse(c * spc + r + 1, spc, c as int, r + 1);
    }
}

/// The cluster `offset` bytes into a chain that starts at `c`, following the
/// table one cluster for each `step` bytes while more than `step` remain;
/// `None` where the chain leaves the table.
pub open spec fn spec_curr_cluster(table: Seq<u16>, c: u16, offset: int, step: int) -> Option<u16>
    decreases offset,
    when step > 0
{
    if offset > step {
        if (c as int) < table.len() {
            spec_curr_cluster(table, table[c as int], offset - step, step)
        } else {
            None
        }
    } else {
        Some(c)
    }
}

} // verus!
