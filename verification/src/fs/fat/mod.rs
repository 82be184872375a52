//! A FAT-16 and FAT-32 file system, read-only.
pub mod boot;
pub mod dirent;
pub mod fat;
pub mod free_set;

use crate::assoc::{assoc_get, lemma_assoc_get_index, lemma_assoc_get_none, lemma_assoc_get_push, lemma_distinct_push, distinct_keys};
use crate::block::block_core::{BlockOp, BlockSector, BLOCK_SECTOR_SIZE};
use crate::fs::fat::boot::{geometry, layout_fits, read_boot_sector, spec_boot_sector, spec_geometry, FatGeometry};
use crate::fs::fat::dirent::{dir_step, DirState, Directory, DIR_ENTRY_SIZE, NAME_SLACK};
use crate::fs::fat::fat::{Fat, FatEntry};
use crate::bytes::{lemma_nul_at, lemma_nul_none, nul_terminated};
use crate::vfs::{raw_listing, read_count, read_range, Error, FileInfo, FileSystem, INodeNum, INodeType, RawDirEntry, Result};
use vstd::arithmetic::div_mod::{lemma_fundamental_div_mod, lemma_fundamental_div_mod_converse};
use vstd::prelude::*;

verus! {

/// What the file system knows of a file: its information, and its clusters
/// in order.
pub struct FatFileInfo {
    pub vfs: FileInfo,
    pub clusters: Vec<u32>,
}

/// A FAT-16 or FAT-32 file system on block device `B`.
pub struct FatFS<B> {
    /// Underlying block device
    pub block: B,
    /// Cluster number of the root directory (0 on FAT-16)
    pub root_inode: INodeNum,
    /// First disk sector of the root directory (FAT-16 only)
    pub fat16_first_root_disk_sector: u32,
    /// Number of disk sectors of the root directory (FAT-16 only)
    pub fat16_root_disk_sector_count: u32,
    /// Number of disk sectors per cluster
    pub disk_sectors_per_cluster: u32,
    /// Disk sector where the first cluster starts
    pub first_cluster_disk_sector: u32,
    /// File allocation table
    pub fat: Fat,
    /// What is known of every file, by inode number
    pub file_info: Vec<(INodeNum, FatFileInfo)>,
}

/// The state after reading the first `k` 32-byte records of `data`.
pub open spec fn records_fold(st: DirState, data: Seq<u8>, k: int) -> Option<DirState>
    decreases k,
{
    if k <= 0 {
        Some(st)
    } else {
        match records_fold(st, data, k - 1) {
            Some(s) => dir_step(s, data.subrange(32 * (k - 1), 32 * k)),
            None => None,
        }
    }
}

/// Folding over the first `k` records depends only on the first `32 * k`
/// bytes.
proof fn lemma_fold_prefix(st: DirState, x: Seq<u8>, y: Seq<u8>, k: int)
    requires
        0 <= k,
        32 * k <= x.len(),
        32 * k <= y.len(),
        x.take(32 * k) == y.take(32 * k),
    ensures
        records_fold(st, x, k) == records_fold(st, y, k),
    decreases k,
{
    if k > 0 {
        assert(x.take(32 * (k - 1)) =~= y.take(32 * (k - 1))) by {
            assert forall|i: int| 0 <= i < 32 * (k - 1) implies #[trigger] x[i] == y[i] by {
                assert(x.take(32 * k)[i] == x[i]);
                assert(y.take(32 * k)[i] == y[i]);
                assert(x.take(32 * k)[i] == y.take(32 * k)[i]);
            }
        }
        lemma_fold_prefix(st, x, y, k - 1);
        let xs = x.subrange(32 * (k - 1), 32 * k);
        let ys = y.subrange(32 * (k - 1), 32 * k);
        assert(xs =~= ys) by {
            assert forall|i: int| 0 <= i < 32 implies #[trigger] xs[i] == ys[i] by {
                let j = 32 * (k - 1) + i;
                assert(xs[i] == x[j]);
                assert(ys[i] == y[j]);
                assert(x.take(32 * k)[j] == x[j]);
                assert(y.take(32 * k)[j] == y[j]);
                assert(x.take(32 * k)[j] == y.take(32 * k)[j]);
            }
        }
    }
}

/// Folding over `a` then `b` is folding over `a + b`.
pub proof fn lemma_fold_append(st: DirState, a: Seq<u8>, b: Seq<u8>, na: int, nb: int)
    requires
        0 <= na,
        0 <= nb,
        a.len() == 32 * na,
        32 * nb <= b.len(),
    ensures
        records_fold(st, a + b, na + nb) == match records_fold(st, a, na) {
            Some(s) => records_fold(s, b, nb),
            None => None,
        },
    decreases nb,
{
    if nb == 0 {
        assert((a + b).take(32 * na) =~= a.take(32 * na));
        lemma_fold_prefix(st, a + b, a, na);
    } else {
        lemma_fold_append(st, a, b, na, nb - 1);
        assert((a + b).subrange(32 * (na + nb - 1), 32 * (na + nb)) =~= b.subrange(32 * (nb - 1), 32 * nb));
    }
}

/// A fold that succeeds over `k` records succeeds over fewer.
proof fn lemma_fold_some_prefix(st: DirState, data: Seq<u8>, i: int, k: int)
    requires
        0 <= i <= k,
        records_fold(st, data, k) is Some,
    ensures
        records_fold(st, data, i) is Some,
    decreases k - i,
{
    if i < k {
        lemma_fold_some_prefix(st, data, i, k - 1);
    }
}

/// The bytes of the first `m` of `count` sectors begin the bytes of all of them.
proof fn lemma_sectors_prefix<B: BlockOp>(dev: &B, first: int, m: int, count: int)
    requires
        0 <= m <= count,
    ensures
        sectors_bytes(dev, first, m).len() <= sectors_bytes(dev, first, count).len(),
        sectors_bytes(dev, first, count).take(sectors_bytes(dev, first, m).len() as int) == sectors_bytes(dev, first, m),
    decreases count - m,
{
    if m == count {
        assert(sectors_bytes(dev, first, count).take(sectors_bytes(dev, first, m).len() as int) =~= sectors_bytes(dev, first, m));
    } else {
        lemma_sectors_prefix(dev, first, m, count - 1);
        let a = sectors_bytes(dev, first, count - 1);
        let d = dev.sector_data((first + count - 1) as BlockSector);
        assert(sectors_bytes(dev, first, count) == a + d);
        assert((a + d).take(sectors_bytes(dev, first, m).len() as int) =~= a.take(sectors_bytes(dev, first, m).len() as int));
    }
}

/// Where the fold over all `count` sectors from `first` succeeds, the fold
/// over sector `first + n` goes on from the fold over the `n` before it.
proof fn lemma_fold_sector_step<B: BlockOp>(dev: &B, first: int, n: int, count: int, mid: DirState)
    requires
        0 <= n < count,
        sectors_bytes(dev, first, n).len() == 512 * n,
        records_fold(empty_dir_state(), sectors_bytes(dev, first, n), 16 * n) == Some(mid),
        records_fold(empty_dir_state(), sectors_bytes(dev, first, count), 16 * count) is Some,
    ensures
        dev.sector_data((first + n) as BlockSector).len() == 512 ==> records_fold(
            mid,
            dev.sector_data((first + n) as BlockSector),
            16,
        ) is Some,
{
    let d = dev.sector_data((first + n) as BlockSector);
    if d.len() == 512 {
        let whole = sectors_bytes(dev, first, count);
        let part = sectors_bytes(dev, first, n + 1);
        assert(part == sectors_bytes(dev, first, n) + d);
        lemma_fold_some_prefix(empty_dir_state(), whole, 16 * (n + 1), 16 * count);
        lemma_sectors_prefix(dev, first, n + 1, count);
        assert(part.take(512 * (n + 1)) =~= part);
        lemma_fold_prefix(empty_dir_state(), whole, part, 16 * (n + 1));
        lemma_fold_append(empty_dir_state(), sectors_bytes(dev, first, n), d, 16 * n, 16);
    }
}

impl<B: BlockOp> FatFS<B> {
    /// The bytes of the first `j` clusters of a chain begin the bytes of all of it.
    proof fn lemma_chain_prefix(&self, cl: Seq<u32>, j: int)
        requires
            0 <= j <= cl.len(),
        ensures
            self.chain_bytes(cl.take(j)).len() <= self.chain_bytes(cl).len(),
            self.chain_bytes(cl).take(self.chain_bytes(cl.take(j)).len() as int) == self.chain_bytes(cl.take(j)),
        decreases cl.len(),
    {
        if j == cl.len() {
            assert(cl.take(j) =~= cl);
            assert(self.chain_bytes(cl).take(self.chain_bytes(cl).len() as int) =~= self.chain_bytes(cl));
        } else {
            let dl = cl.drop_last();
            assert(dl.take(j) =~= cl.take(j));
            self.lemma_chain_prefix(dl, j);
            let a = self.chain_bytes(dl);
            let x = sectors_bytes(&self.block, self.cluster_first_sector(cl.last()), self.disk_sectors_per_cluster as int);
            assert(self.chain_bytes(cl) == a + x);
            assert((a + x).take(self.chain_bytes(cl.take(j)).len() as int) =~= a.take(self.chain_bytes(cl.take(j)).len() as int));
        }
    }

    /// Where the fold over the whole chain `cl` succeeds, the fold over sector
    /// `n` of its cluster `j` goes on from the fold over what comes before.
    proof fn lemma_chain_sector_step(&self, cl: Seq<u32>, j: int, n: int, mid: DirState)
        requires
            0 <= j < cl.len(),
            0 <= n < self.disk_sectors_per_cluster,
            self.chain_bytes(cl.take(j)).len() == 512 * self.disk_sectors_per_cluster * j,
            sectors_bytes(&self.block, self.cluster_first_sector(cl[j]), n).len() == 512 * n,
            records_fold(
                empty_dir_state(),
                self.chain_bytes(cl.take(j)) + sectors_bytes(&self.block, self.cluster_first_sector(cl[j]), n),
                16 * self.disk_sectors_per_cluster * j + 16 * n,
            ) == Some(mid),
            records_fold(empty_dir_state(), self.chain_bytes(cl), 16 * self.disk_sectors_per_cluster * cl.len()) is Some,
        ensures
            self.block.sector_data((self.cluster_first_sector(cl[j]) + n) as BlockSector).len() == 512 ==> records_fold(
                mid,
                self.block.sector_data((self.cluster_first_sector(cl[j]) + n) as BlockSector),
                16,
            ) is Some,
    {
        let f = self.cluster_first_sector(cl[j]);
        let dspc = self.disk_sectors_per_cluster as int;
        let d = self.block.sector_data((f + n) as BlockSector);
        if d.len() == 512 {
            let acc = self.chain_bytes(cl.take(j));
            let whole = self.chain_bytes(cl);
            let part = acc + sectors_bytes(&self.block, f, n + 1);
            assert(sectors_bytes(&self.block, f, n + 1) == sectors_bytes(&self.block, f, n) + d);
            assert(cl.take(j + 1).drop_last() =~= cl.take(j));
            assert(self.chain_bytes(cl.take(j + 1)) == acc + sectors_bytes(&self.block, f, dspc));
            self.lemma_chain_prefix(cl, j + 1);
            lemma_sectors_prefix(&self.block, f, n + 1, dspc);
            let full = acc + sectors_bytes(&self.block, f, dspc);
            assert(full.take(part.len() as int) =~= part);
            assert(whole.take(part.len() as int) =~= part) by {
                assert(whole.take(full.len() as int) == full);
                assert forall|i: int| 0 <= i < part.len() implies #[trigger] whole.take(part.len() as int)[i] == part[i] by {
                    assert(whole.take(full.len() as int)[i] == whole[i]);
                    assert(full.take(part.len() as int)[i] == full[i]);
                }
            }
            let kk = 16 * dspc * j + 16 * (n + 1);
            let len = cl.len() as int;
            assert(16 * dspc * (j + 1) <= 16 * dspc * len) by (nonlinear_arith)
                requires
                    0 <= j < len,
                    0 <= dspc,
            ;
            assert(16 * dspc * j + 16 * dspc == 16 * dspc * (j + 1)) by (nonlinear_arith);
            assert(kk <= 16 * dspc * cl.len());
            assert(part.len() == 32 * kk) by (nonlinear_arith)
                requires
                    part.len() == 512 * dspc * j + 512 * (n + 1),
                    kk == 16 * dspc * j + 16 * (n + 1),
            ;
            lemma_fold_some_prefix(empty_dir_state(), whole, kk, 16 * dspc * cl.len());
            assert(part.take(32 * kk) =~= part);
            lemma_fold_prefix(empty_dir_state(), whole, part, kk);
            assert(part =~= (acc + sectors_bytes(&self.block, f, n)) + d);
            lemma_fold_append(empty_dir_state(), acc + sectors_bytes(&self.block, f, n), d, 16 * dspc * j + 16 * n, 16);
        }
    }
}

/// Reading one more sector after the bytes `acc` and `n` sectors from
/// `first` continues the fold over them.
proof fn lemma_fold_next_sector<B: BlockOp>(acc: Seq<u8>, na: int, dev: &B, first: int, n: int, mid: DirState, next: DirState)
    requires
        0 <= na,
        0 <= n,
        acc.len() == 32 * na,
        sectors_bytes(dev, first, n).len() == 512 * n,
        dev.sector_data((first + n) as BlockSector).len() == 512,
        records_fold(empty_dir_state(), acc + sectors_bytes(dev, first, n), na + 16 * n) == Some(mid),
        records_fold(mid, dev.sector_data((first + n) as BlockSector), 16) == Some(next),
    ensures
        sectors_bytes(dev, first, n + 1).len() == 512 * (n + 1),
        records_fold(empty_dir_state(), acc + sectors_bytes(dev, first, n + 1), na + 16 * (n + 1)) == Some(next),
{
    let a = acc + sectors_bytes(dev, first, n);
    let b = dev.sector_data((first + n) as BlockSector);
    assert(sectors_bytes(dev, first, n + 1) == sectors_bytes(dev, first, n) + b);
    assert(acc + sectors_bytes(dev, first, n + 1) =~= a + b);
    lemma_fold_append(empty_dir_state(), a, b, na + 16 * n, 16);
}

/// The bytes of `count` disk sectors from `first` on, one after another.
pub open spec fn sectors_bytes<B: BlockOp>(dev: &B, first: int, count: int) -> Seq<u8>
    decreases count,
{
    if count <= 0 {
        Seq::empty()
    } else {
        sectors_bytes(dev, first, count - 1) + dev.sector_data((first + count - 1) as BlockSector)
    }
}

/// Whether `clusters` is the chain of clusters that starts at `first` in
/// `fat`: each cluster's entry names the next, the last one's marks the end.
pub open spec fn is_chain(fat: Fat, first: u32, clusters: Seq<u32>) -> bool {
    &&& clusters.len() > 0
    &&& clusters[0] == first
    &&& fat.spec_entry(clusters.last() as int) is Eof
    &&& forall|k: int| 0 <= k < clusters.len() - 1 ==> fat.spec_entry(#[trigger] clusters[k] as int) == FatEntry::HasNext(clusters[k + 1])
}

proof fn lemma_chains_agree(fat: Fat, first: u32, c1: Seq<u32>, c2: Seq<u32>, k: int)
    requires
        is_chain(fat, first, c1),
        is_chain(fat, first, c2),
        0 <= k < c1.len(),
        k < c2.len(),
    ensures
        forall|j: int| 0 <= j <= k ==> c1[j] == c2[j],
    decreases k,
{
    if k > 0 {
        lemma_chains_agree(fat, first, c1, c2, k - 1);
        assert(fat.spec_entry(c1[k - 1] as int) == FatEntry::HasNext(c1[k]));
        assert(fat.spec_entry(c2[k - 1] as int) == FatEntry::HasNext(c2[k]));
    }
}

/// A cluster chain is determined by its first cluster.
pub proof fn lemma_chain_unique(fat: Fat, first: u32, c1: Seq<u32>, c2: Seq<u32>)
    requires
        is_chain(fat, first, c1),
        is_chain(fat, first, c2),
    ensures
        c1 == c2,
{
    let n = if c1.len() < c2.len() { c1.len() as int } else { c2.len() as int };
    lemma_chains_agree(fat, first, c1, c2, n - 1);
    if c1.len() < c2.len() {
        assert(fat.spec_entry(c2[n - 1] as int) == FatEntry::HasNext(c2[n]));
    } else if c2.len() < c1.len() {
        assert(fat.spec_entry(c1[n - 1] as int) == FatEntry::HasNext(c1[n]));
    }
    assert(c1 =~= c2);
}

/// The directory state before any record is read.
pub open spec fn empty_dir_state() -> DirState {
    (Seq::<(usize, FileInfo)>::empty(), Seq::<u8>::empty(), 0usize)
}

/// The name of entry `i` of directory state `d`: the name bytes from where it
/// starts up to the next NUL.
pub open spec fn entry_name(d: DirState, i: int) -> Seq<u8> {
    let start = d.0[i].0 as int;
    if start <= d.1.len() {
        nul_terminated(d.1.skip(start))
    } else {
        Seq::empty()
    }
}

/// The inode, type and name of each entry of directory state `d`.
pub open spec fn dir_listing(d: DirState) -> Seq<(u32, INodeType, Seq<u8>)> {
    Seq::new(d.0.len(), |i: int| (d.0[i].1.inode, d.0[i].1.kind, entry_name(d, i)))
}

/// Where byte `k` after byte `pos` of a file lies, for clusters of `dspc`
/// sectors, when it is in the same sector as `pos`.
pub proof fn lemma_position(pos: int, k: int, dspc: int)
    requires
        pos >= 0,
        dspc > 0,
        0 <= k,
        pos % 512 + k < 512,
    ensures
        dspc * 512 > 0,
        (pos + k) / (dspc * 512) == pos / (dspc * 512),
        ((pos + k) % (dspc * 512)) / 512 == (pos % (dspc * 512)) / 512,
        (pos + k) % 512 == pos % 512 + k,
        (pos % (dspc * 512)) % 512 == pos % 512,
{
    let cs = dspc * 512;
    assert(cs > 0) by (nonlinear_arith)
        requires dspc > 0, cs == dspc * 512;
    lemma_fundamental_div_mod(pos, cs);
    let q = pos / cs;
    let r = pos % cs;
    lemma_fundamental_div_mod(r, 512);
    let r1 = r / 512;
    let r2 = r % 512;
    assert(r1 < dspc) by (nonlinear_arith)
        requires r == 512 * r1 + r2, 0 <= r2, r < cs, cs == dspc * 512;
    assert(pos == 512 * (dspc * q + r1) + r2) by (nonlinear_arith)
        requires pos == cs * q + r, r == 512 * r1 + r2, cs == dspc * 512;
    lemma_fundamental_div_mod_converse(pos, 512, dspc * q + r1, r2);
    lemma_fundamental_div_mod_converse(pos + k, 512, dspc * q + r1, r2 + k);
    assert(r + k < cs) by (nonlinear_arith)
        requires r == 512 * r1 + r2, r2 + k < 512, r1 < dspc, cs == dspc * 512, r1 >= 0;
    lemma_fundamental_div_mod_converse(pos + k, cs, q, r + k);
    lemma_fundamental_div_mod_converse(r + k, 512, r1, r2 + k);
}

impl<B: BlockOp> FatFS<B> {
    /// The bytes of the clusters `clusters` of a directory, one after another.
    pub open spec fn chain_bytes(&self, clusters: Seq<u32>) -> Seq<u8>
        decreases clusters.len(),
    {
        if clusters.len() == 0 {
            Seq::empty()
        } else {
            self.chain_bytes(clusters.drop_last()) + sectors_bytes(
                &self.block,
                self.cluster_first_sector(clusters.last()),
                self.disk_sectors_per_cluster as int,
            )
        }
    }

    /// Whether `d` is what reading the records of directory `inode` gives:
    /// the sectors of the FAT-16 root directory for inode 0, otherwise the
    /// clusters of the chain that starts at `inode`.
    pub open spec fn dir_contents(&self, inode: INodeNum, d: DirState) -> bool {
        if inode == 0 {
            records_fold(
                empty_dir_state(),
                sectors_bytes(&self.block, self.fat16_first_root_disk_sector as int, self.fat16_root_disk_sector_count as int),
                16 * self.fat16_root_disk_sector_count,
            ) == Some(d)
        } else {
            exists|cl: Seq<u32>|
                #![trigger is_chain(self.fat, inode, cl)]
                is_chain(self.fat, inode, cl) && records_fold(empty_dir_state(), self.chain_bytes(cl), self.chain_bytes(cl).len() as int / 32)
                    == Some(d)
        }
    }
}

/// Devices with the same sectors hold the same runs of sectors.
proof fn lemma_same_sectors_bytes<B: BlockOp>(a: &B, b: &B, first: int, count: int)
    requires
        forall|s: BlockSector| #[trigger] a.sector_data(s) == b.sector_data(s),
    ensures
        sectors_bytes(a, first, count) == sectors_bytes(b, first, count),
    decreases count,
{
    if count > 0 {
        lemma_same_sectors_bytes(a, b, first, count - 1);
        assert(a.sector_data((first + count - 1) as BlockSector) == b.sector_data((first + count - 1) as BlockSector));
    }
}

/// Two states with the same layout on devices with the same sectors hold the
/// same cluster bytes.
proof fn lemma_same_chain_bytes<B: BlockOp>(a: &FatFS<B>, b: &FatFS<B>, cl: Seq<u32>)
    requires
        forall|s: BlockSector| #[trigger] a.block.sector_data(s) == b.block.sector_data(s),
        a.disk_sectors_per_cluster == b.disk_sectors_per_cluster,
        a.first_cluster_disk_sector == b.first_cluster_disk_sector,
    ensures
        a.chain_bytes(cl) == b.chain_bytes(cl),
    decreases cl.len(),
{
    if cl.len() > 0 {
        lemma_same_chain_bytes(a, b, cl.drop_last());
        lemma_same_sectors_bytes(&a.block, &b.block, a.cluster_first_sector(cl.last()), a.disk_sectors_per_cluster as int);
    }
}

/// Two states with the same layout and FAT on devices with the same sectors
/// read the same directories.
pub proof fn lemma_same_dir_contents<B: BlockOp>(a: &FatFS<B>, b: &FatFS<B>)
    requires
        forall|s: BlockSector| #[trigger] a.block.sector_data(s) == b.block.sector_data(s),
        a.fat == b.fat,
        a.disk_sectors_per_cluster == b.disk_sectors_per_cluster,
        a.first_cluster_disk_sector == b.first_cluster_disk_sector,
        a.fat16_first_root_disk_sector == b.fat16_first_root_disk_sector,
        a.fat16_root_disk_sector_count == b.fat16_root_disk_sector_count,
    ensures
        forall|inode: INodeNum, d: DirState| #[trigger] a.dir_contents(inode, d) == b.dir_contents(inode, d),
{
    assert forall|cl: Seq<u32>| #[trigger] a.chain_bytes(cl) == b.chain_bytes(cl) by {
        lemma_same_chain_bytes(a, b, cl);
    }
    lemma_same_sectors_bytes(&a.block, &b.block, a.fat16_first_root_disk_sector as int, a.fat16_root_disk_sector_count as int);
}

impl<B: BlockOp> FatFS<B> {
    /// Whether the record at index `j` of the catalog is a directory among
    /// whose entries one carries `info`.
    pub open spec fn lists(&self, j: int, info: FileInfo) -> bool {
        &&& 0 <= j < self.file_info@.len()
        &&& self.file_info@[j].1.vfs.kind == INodeType::Directory
        &&& exists|d: DirState, e: int|
            #![trigger self.dir_contents(self.file_info@[j].0, d), d.0[e]]
            self.dir_contents(self.file_info@[j].0, d) && 0 <= e < d.0.len() && d.0[e].1 == info
    }

    /// Every record of the catalog but the root's comes from an entry of a
    /// directory that the catalog records.
    pub open spec fn catalog_sound(&self) -> bool {
        forall|i: int|
            0 <= i < self.file_info@.len() && self.file_info@[i].0 != self.root_inode ==> exists|j: int| #[trigger]
                self.lists(j, self.file_info@[i].1.vfs)
    }

    /// Whether every entry of the directory that record `j` describes has a
    /// record of its own.
    pub open spec fn dir_closed(&self, j: int) -> bool {
        forall|d: DirState, e: int|
            #![trigger self.dir_contents(self.file_info@[j].0, d), d.0[e]]
            self.dir_contents(self.file_info@[j].0, d) && 0 <= e < d.0.len() ==> self.info(d.0[e].1.inode) is Some
    }

    /// Every entry of every directory that the catalog records has a record
    /// of its own; with the root recorded, so has every file that can be
    /// reached from the root.
    pub open spec fn catalog_complete(&self) -> bool {
        forall|j: int|
            0 <= j < self.file_info@.len() && self.file_info@[j].1.vfs.kind == INodeType::Directory ==> #[trigger] self.dir_closed(j)
    }
}

/// A catalog that grows, on the same disk and layout, keeps its directories
/// closed.
proof fn lemma_closed_grow<B: BlockOp>(a: &FatFS<B>, b: &FatFS<B>, j: int)
    requires
        0 <= j < a.file_info@.len(),
        a.dir_closed(j),
        a.file_info@.len() <= b.file_info@.len(),
        b.file_info@[j] == a.file_info@[j],
        forall|i: INodeNum| a.info(i) is Some ==> #[trigger] b.info(i) is Some,
        forall|inode: INodeNum, d: DirState| #[trigger] a.dir_contents(inode, d) == b.dir_contents(inode, d),
    ensures
        b.dir_closed(j),
{
    assert forall|d: DirState, e: int| b.dir_contents(b.file_info@[j].0, d) && 0 <= e < d.0.len() implies b.info(
        #[trigger] d.0[e].1.inode,
    ) is Some by {
        assert(a.dir_contents(a.file_info@[j].0, d));
        assert(a.info(d.0[e].1.inode) is Some);
    }
}

/// A catalog that grows, on the same disk and layout, keeps what it lists.
proof fn lemma_lists_grow<B: BlockOp>(a: &FatFS<B>, b: &FatFS<B>, j: int, info: FileInfo)
    requires
        a.lists(j, info),
        a.file_info@.len() <= b.file_info@.len(),
        forall|i: int| 0 <= i < a.file_info@.len() ==> #[trigger] b.file_info@[i] == a.file_info@[i],
        forall|s: BlockSector| #[trigger] a.block.sector_data(s) == b.block.sector_data(s),
        a.fat == b.fat,
        a.disk_sectors_per_cluster == b.disk_sectors_per_cluster,
        a.first_cluster_disk_sector == b.first_cluster_disk_sector,
        a.fat16_first_root_disk_sector == b.fat16_first_root_disk_sector,
        a.fat16_root_disk_sector_count == b.fat16_root_disk_sector_count,
    ensures
        b.lists(j, info),
{
    lemma_same_dir_contents(a, b);
    assert(b.file_info@[j] == a.file_info@[j]);
    let (d, e) = choose|d: DirState, e: int| a.dir_contents(a.file_info@[j].0, d) && 0 <= e < d.0.len() && d.0[e].1 == info;
    assert(b.dir_contents(b.file_info@[j].0, d));
}

/// A sound catalog that grows, on the same disk and layout, stays sound for
/// its old records.
proof fn lemma_sound_grow<B: BlockOp>(a: &FatFS<B>, b: &FatFS<B>)
    requires
        a.catalog_sound(),
        a.file_info@.len() <= b.file_info@.len(),
        forall|i: int| 0 <= i < a.file_info@.len() ==> #[trigger] b.file_info@[i] == a.file_info@[i],
        forall|s: BlockSector| #[trigger] a.block.sector_data(s) == b.block.sector_data(s),
        a.fat == b.fat,
        a.root_inode == b.root_inode,
        a.disk_sectors_per_cluster == b.disk_sectors_per_cluster,
        a.first_cluster_disk_sector == b.first_cluster_disk_sector,
        a.fat16_first_root_disk_sector == b.fat16_first_root_disk_sector,
        a.fat16_root_disk_sector_count == b.fat16_root_disk_sector_count,
    ensures
        forall|i: int|
            0 <= i < a.file_info@.len() && b.file_info@[i].0 != b.root_inode ==> exists|j: int| #[trigger]
                b.lists(j, b.file_info@[i].1.vfs),
{
    assert forall|i: int| 0 <= i < a.file_info@.len() && b.file_info@[i].0 != b.root_inode implies exists|j: int| #[trigger]
        b.lists(j, b.file_info@[i].1.vfs) by {
        assert(b.file_info@[i] == a.file_info@[i]);
        let j = choose|j: int| #[trigger] a.lists(j, a.file_info@[i].1.vfs);
        lemma_lists_grow(a, b, j, a.file_info@[i].1.vfs);
    }
}

impl<B: BlockOp> FatFS<B> {
    /// What is known of file `ino`.
    pub open spec fn info(&self, ino: INodeNum) -> Option<FatFileInfo> {
        assoc_get(self.file_info@, ino)
    }

    /// The size of a cluster in bytes.
    pub open spec fn cluster_size(&self) -> int {
        self.disk_sectors_per_cluster * 512
    }

    /// The disk sector that holds byte `p` of the file with clusters `clusters`.
    pub open spec fn sector_of(&self, clusters: Seq<u32>, p: int) -> int {
        self.first_cluster_disk_sector + (clusters[p / self.cluster_size()] - 2) * self.disk_sectors_per_cluster + (p
            % self.cluster_size()) / 512
    }

    /// Byte `p` of the file with clusters `clusters`.
    pub open spec fn byte_at(&self, clusters: Seq<u32>, p: int) -> u8 {
        self.block.sector_data(self.sector_of(clusters, p) as BlockSector)[p % 512]
    }

    /// The bytes of file `fi`: the first `size` bytes of its clusters.
    pub open spec fn file_bytes(&self, fi: FatFileInfo) -> Seq<u8> {
        Seq::new(fi.vfs.size as nat, |p: int| self.byte_at(fi.clusters@, p))
    }

    /// Whether reading file `fi` meets no error: its clusters are enough for
    /// its size, each lies on the volume within the 32-bit sectors, and the
    /// device promises each of their sectors.
    pub open spec fn file_reads(&self, fi: FatFileInfo) -> bool {
        &&& self.covered(fi)
        &&& forall|k: int|
            0 <= k < fi.clusters@.len() ==> {
                &&& #[trigger] fi.clusters@[k] >= 2
                &&& self.cluster_first_sector(fi.clusters@[k]) + self.disk_sectors_per_cluster <= u32::MAX
                &&& forall|j: int|
                    0 <= j < self.disk_sectors_per_cluster ==> #[trigger] self.block.sector_readable(
                        (self.cluster_first_sector(fi.clusters@[k]) + j) as BlockSector,
                    )
            }
    }

    /// Whether `cl` is the chain of clusters from `first` (`is_chain`), each a
    /// cluster with an entry in the table, and short enough to be followed
    /// within one step per cluster of the volume.
    pub open spec fn chain_fits(&self, first: u32, cl: Seq<u32>) -> bool {
        &&& is_chain(self.fat, first, cl)
        &&& cl.len() <= self.fat.cluster_count + 1
        &&& forall|k: int| 0 <= k < cl.len() ==> 2 <= #[trigger] cl[k] < self.fat.entry_count()
    }

    /// Whether the chain of clusters from `first` fits (`chain_fits`).
    #[verifier::opaque]
    pub open spec fn chain_in_range(&self, first: u32) -> bool {
        exists|cl: Seq<u32>| #[trigger] self.chain_fits(first, cl)
    }

    /// Whether the device promises every sector of cluster `c`, which lies
    /// within the 32-bit sectors.
    pub open spec fn cluster_reads(&self, c: u32) -> bool {
        &&& self.cluster_first_sector(c) + self.disk_sectors_per_cluster <= u32::MAX
        &&& forall|j: int|
            0 <= j < self.disk_sectors_per_cluster ==> #[trigger] self.block.sector_readable(
                (self.cluster_first_sector(c) + j) as BlockSector,
            )
    }

    /// Whether `cl` is a chain from `first` that fits (`chain_fits`), whose
    /// clusters the device promises, and whose records make a directory.
    pub open spec fn chain_reads_with(&self, first: u32, cl: Seq<u32>) -> bool {
        &&& self.chain_fits(first, cl)
        &&& forall|k: int| 0 <= k < cl.len() ==> #[trigger] self.cluster_reads(cl[k])
        &&& records_fold(empty_dir_state(), self.chain_bytes(cl), 16 * self.disk_sectors_per_cluster * cl.len()) is Some
    }

    /// Whether reading the directory whose first cluster is `first` meets no
    /// error but the library's running out of room (`chain_reads_with`).
    #[verifier::opaque]
    pub open spec fn dir_chain_reads(&self, first: u32) -> bool {
        exists|cl: Seq<u32>| #[trigger] self.chain_reads_with(first, cl)
    }

    /// Whether reading the FAT-16 root directory meets no error but the
    /// library's running out of room: its sectors lie within the 32-bit
    /// sectors, the device promises each of them, and their records make a
    /// directory.
    #[verifier::opaque]
    pub open spec fn root_dir_reads(&self) -> bool {
        let first = self.fat16_first_root_disk_sector as int;
        let count = self.fat16_root_disk_sector_count as int;
        &&& first + count <= u32::MAX
        &&& forall|s: int| first <= s < first + count ==> #[trigger] self.block.sector_readable(s as BlockSector)
        &&& records_fold(empty_dir_state(), sectors_bytes(&self.block, first, count), 16 * count) is Some
    }

    /// Whether the clusters of `fi` are enough for its size.
    pub open spec fn covered(&self, fi: FatFileInfo) -> bool {
        fi.vfs.size <= fi.clusters@.len() * self.cluster_size()
    }

    /// The first disk sector of cluster `cluster` (clusters are numbered from 2).
    pub open spec fn cluster_first_sector(&self, cluster: u32) -> int {
        self.first_cluster_disk_sector + (cluster - 2) * self.disk_sectors_per_cluster
    }

    /// The layout fields keep clusters nonempty and not larger than 1024 sectors.
    pub open spec fn layout_wf(&self) -> bool {
        &&& 0 < self.disk_sectors_per_cluster <= 1024
        &&& self.fat.wf()
        &&& distinct_keys(self.file_info@)
        &&& forall|i: int| 0 <= i < self.file_info@.len() ==> (#[trigger] self.file_info@[i]).1.vfs.size <= u32::MAX
        &&& forall|i: int| 0 <= i < self.file_info@.len() ==> self.record_ok(#[trigger] self.file_info@[i])
    }

    /// A record of the catalog is about its own inode, and lists the FAT
    /// chain that starts at it (none for inode 0).
    pub open spec fn record_ok(&self, rec: (INodeNum, FatFileInfo)) -> bool {
        &&& rec.1.vfs.inode == rec.0
        &&& rec.0 == 0 ==> rec.1.clusters@.len() == 0
        &&& rec.0 != 0 ==> is_chain(self.fat, rec.0, rec.1.clusters@)
    }

    fn find_info(&self, ino: INodeNum) -> (r: Option<usize>)
        ensures
            match r {
                Some(i) => i < self.file_info@.len() && self.file_info@[i as int].0 == ino && self.info(ino) == Some(
                    self.file_info@[i as int].1,
                ),
                None => self.info(ino) is None && forall|j: int| 0 <= j < self.file_info@.len() ==> self.file_info@[j].0 != ino,
            },
    {
        let mut i: usize = 0;
        while i < self.file_info.len()
            invariant
                i <= self.file_info@.len(),
                forall|j: int| 0 <= j < i ==> self.file_info@[j].0 != ino,
            decreases self.file_info@.len() - i,
        {
            if self.file_info[i].0 == ino {
                proof { lemma_assoc_get_index(self.file_info@, ino, i as int); }
                return Some(i);
            }
            i = i + 1;
        }
        proof { lemma_assoc_get_none(self.file_info@, ino); }
        None
    }

    /// The first disk sector of cluster `cluster`, if it is a cluster (2 or
    /// above) and the sector number fits.
    pub fn first_disk_sector_in_cluster(&self, cluster: u32) -> (r: Option<u32>)
        ensures
            match r {
                Some(s) => cluster >= 2 && s == self.cluster_first_sector(cluster) && s + self.disk_sectors_per_cluster <= u32::MAX,
                None => cluster < 2 || self.cluster_first_sector(cluster) + self.disk_sectors_per_cluster > u32::MAX,
            },
    {
        if cluster < 2 {
            return None;
        }
        let a: u64 = (cluster - 2) as u64;
        let b: u64 = self.disk_sectors_per_cluster as u64;
        assert(a * b <= 0xFFFF_FFFF * 0xFFFF_FFFF) by (nonlinear_arith)
            requires a <= 0xFFFF_FFFF, b <= 0xFFFF_FFFF;
        let s: u64 = self.first_cluster_disk_sector as u64 + a * b;
        if s + self.disk_sectors_per_cluster as u64 > u32::MAX as u64 {
            return None;
        }
        Some(s as u32)
    }

    /// The clusters of the file that starts at cluster `first`, following
    /// the FAT from cluster to cluster (none for cluster 0: an empty file, or
    /// the FAT-16 root directory).
    pub fn clusters_for_file(&self, first: u32) -> (r: Result<Vec<u32>>)
        requires
            self.layout_wf(),
        ensures
            r matches Ok(v) ==> {
                &&& first == 0 ==> v@.len() == 0
                &&& first != 0 ==> v@.len() > 0 && v@[0] == first && self.fat.spec_entry(v@.last() as int) is Eof
                &&& forall|k: int| 0 <= k < v@.len() ==> 2 <= #[trigger] v@[k] < self.fat.entry_count()
                &&& forall|k: int| 0 <= k < v@.len() - 1 ==> self.fat.spec_entry(#[trigger] v@[k] as int) == FatEntry::HasNext(v@[k + 1])
            },
            first != 0 && self.chain_in_range(first) ==> r is Ok,
    {
        let mut v: Vec<u32> = Vec::new();
        if first == 0 {
            return Ok(v);
        }
        proof {
            reveal(FatFS::chain_in_range);
        }
        let ghost cl: Seq<u32> = choose|cl: Seq<u32>| self.chain_fits(first, cl);
        let mut cluster = first;
        let mut fuel: u64 = self.fat.cluster_count as u64 + 1;
        let entry_count: usize = if self.fat.kind == crate::fs::fat::fat::FatType::Fat16 {
            self.fat.data.len() / 2
        } else {
            self.fat.data.len() / 4
        };
        loop
            invariant
                self.layout_wf(),
                entry_count == self.fat.entry_count(),
                first != 0,
                v@.len() == 0 ==> cluster == first,
                v@.len() > 0 ==> v@[0] == first && self.fat.spec_entry(v@.last() as int) == FatEntry::HasNext(cluster),
                forall|k: int| 0 <= k < v@.len() ==> 2 <= #[trigger] v@[k] < self.fat.entry_count(),
                forall|k: int| 0 <= k < v@.len() - 1 ==> self.fat.spec_entry(#[trigger] v@[k] as int) == FatEntry::HasNext(v@[k + 1]),
                self.chain_in_range(first) ==> self.chain_fits(first, cl) && v@.len() < cl.len() && v@ == cl.take(v@.len() as int)
                    && cluster == cl[v@.len() as int] && fuel == self.fat.cluster_count + 1 - v@.len(),
            decreases fuel,
        {
            if cluster < 2 || cluster as usize >= entry_count {
                return Err(Error::io("cluster number out of range in file"));
            }
            if fuel == 0 {
                return Err(Error::io("cluster chain of file loops"));
            }
            fuel = fuel - 1;
            let ghost v0 = v@;
            v.push(cluster);
            proof {
                assert forall|k: int| 0 <= k < v@.len() - 1 implies self.fat.spec_entry(#[trigger] v@[k] as int) == FatEntry::HasNext(v@[k + 1]) by {
                    if k < v0.len() - 1 {
                        assert(v@[k] == v0[k] && v@[k + 1] == v0[k + 1]);
                    } else {
                        assert(v@[k] == v0.last());
                    }
                }
            }
            proof {
                if self.chain_in_range(first) {
                    assert(v@ =~= cl.take(v@.len() as int));
                }
            }
            match self.fat.entry(cluster) {
                FatEntry::Eof => return Ok(v),
                FatEntry::HasNext(n) => {
                    cluster = n;
                    proof {
                        if self.chain_in_range(first) {
                            let j = v@.len() - 1;
                            if j == cl.len() - 1 {
                                assert(self.fat.spec_entry(cl.last() as int) is Eof);
                            } else {
                                assert(self.fat.spec_entry(cl[j] as int) == FatEntry::HasNext(cl[j + 1]));
                            }
                        }
                    }
                },
                _ => {
                    proof {
                        if self.chain_in_range(first) {
                            let j = v@.len() - 1;
                            if j < cl.len() - 1 {
                                assert(self.fat.spec_entry(cl[j] as int) == FatEntry::HasNext(cl[j + 1]));
                            }
                        }
                    }
                    return Err(Error::io("free or defective cluster referenced in file"));
                },
            }
        }
    }

    /// Read the 16 directory records of disk sector `sector` into `dir`.
    fn read_sector_records(&mut self, dir: &mut Directory, sector: u32) -> (r: Result<()>)
        requires
            old(dir).wf(),
        ensures
            final(dir).wf(),
            forall|s: BlockSector| #[trigger] final(self).block.sector_data(s) == old(self).block.sector_data(s),
            final(self).fat == old(self).fat,
            final(self).file_info == old(self).file_info,
            final(self).root_inode == old(self).root_inode,
            final(self).disk_sectors_per_cluster == old(self).disk_sectors_per_cluster,
            final(self).first_cluster_disk_sector == old(self).first_cluster_disk_sector,
            final(self).fat16_first_root_disk_sector == old(self).fat16_first_root_disk_sector,
            final(self).fat16_root_disk_sector_count == old(self).fat16_root_disk_sector_count,
            r is Ok ==> records_fold(old(dir).view(), old(self).block.sector_data(sector), 16) == Some(final(dir).view()),
            r is Ok ==> old(self).block.sector_data(sector).len() == 512,
            forall|s: BlockSector| #[trigger] final(self).block.sector_readable(s) == old(self).block.sector_readable(s),
            old(self).block.sector_readable(sector) && (old(self).block.sector_data(sector).len() == 512 ==> records_fold(
                old(dir).view(),
                old(self).block.sector_data(sector),
                16,
            ) is Some) ==> r is Ok || r matches Err(Error::NoSpace),
    {
        let mut data: Vec<u8> = Vec::new();
        while data.len() < BLOCK_SECTOR_SIZE
            invariant
                data@.len() <= BLOCK_SECTOR_SIZE,
            decreases BLOCK_SECTOR_SIZE - data@.len(),
        {
            data.push(0);
        }
        match self.block.read(sector, data.as_mut_slice()) {
            Ok(()) => {},
            Err(e) => return Err(Error::from_block_error(e)),
        }
        let ghost s1 = *self;
        let ghost whole_ok = old(self).block.sector_readable(sector) && records_fold(old(dir).view(), old(self).block.sector_data(sector), 16) is Some;
        let mut i: usize = 0;
        while i < BLOCK_SECTOR_SIZE / DIR_ENTRY_SIZE
            invariant
                *self == s1,
                whole_ok == (old(self).block.sector_readable(sector) && records_fold(old(dir).view(), old(self).block.sector_data(sector), 16) is Some),
                forall|t: BlockSector| #[trigger] s1.block.sector_readable(t) == old(self).block.sector_readable(t),
                forall|t: BlockSector| #[trigger] s1.block.sector_data(t) == old(self).block.sector_data(t),
                s1.fat == old(self).fat,
                s1.file_info == old(self).file_info,
                s1.root_inode == old(self).root_inode,
                s1.disk_sectors_per_cluster == old(self).disk_sectors_per_cluster,
                s1.first_cluster_disk_sector == old(self).first_cluster_disk_sector,
                s1.fat16_first_root_disk_sector == old(self).fat16_first_root_disk_sector,
                s1.fat16_root_disk_sector_count == old(self).fat16_root_disk_sector_count,
                i <= 16,
                data@.len() == BLOCK_SECTOR_SIZE,
                data@ == old(self).block.sector_data(sector),
                dir.wf(),
                records_fold(old(dir).view(), data@, i as int) == Some(dir.view()),
            decreases 16 - i,
        {
            let rec = vstd::slice::slice_subrange(data.as_slice(), DIR_ENTRY_SIZE * i, DIR_ENTRY_SIZE * (i + 1));
            let ghost before = dir.view();
            let ghost n0 = dir.names@.len();
            proof {
                if whole_ok {
                    lemma_fold_some_prefix(old(dir).view(), data@, i + 1, 16);
                    assert(rec@ == data@.subrange(32 * i, 32 * (i + 1)));
                }
            }
            dir.read_one_entry(rec)?;
            proof {
                if n0 + NAME_SLACK > usize::MAX {
                } else {
                    assert(records_fold(old(dir).view(), data@, i + 1) == dir_step(before, data@.subrange(32 * i, 32 * (i + 1))));
                }
            }
            i = i + 1;
        }
        Ok(())
    }

}

impl Directory {
    /// Read the directory whose first cluster is `inode` (0 for the FAT-16
    /// root directory, which has sectors of its own), cluster after cluster.
    #[verifier::rlimit(50)]
    pub fn read<B: BlockOp>(fs: &mut FatFS<B>, inode: INodeNum) -> (r: Result<Directory>)
        requires
            old(fs).layout_wf(),
        ensures
            final(fs).layout_wf(),
            forall|s: BlockSector| #[trigger] final(fs).block.sector_data(s) == old(fs).block.sector_data(s),
            final(fs).fat == old(fs).fat,
            final(fs).file_info == old(fs).file_info,
            final(fs).root_inode == old(fs).root_inode,
            final(fs).disk_sectors_per_cluster == old(fs).disk_sectors_per_cluster,
            final(fs).first_cluster_disk_sector == old(fs).first_cluster_disk_sector,
            final(fs).fat16_first_root_disk_sector == old(fs).fat16_first_root_disk_sector,
            final(fs).fat16_root_disk_sector_count == old(fs).fat16_root_disk_sector_count,
            r matches Ok(d) ==> d.wf() && old(fs).dir_contents(inode, d.view()),
            inode == 0 && old(fs).fat16_first_root_disk_sector as int + old(fs).fat16_root_disk_sector_count as int > u32::MAX ==> r is Err,
            inode == 0 && old(fs).root_dir_reads() ==> r is Ok || r matches Err(Error::NoSpace),
            inode != 0 && old(fs).dir_chain_reads(inode) ==> r is Ok || r matches Err(Error::NoSpace),
            inode != 0 && (forall|cl: Seq<u32>| !is_chain(old(fs).fat, inode, cl)) ==> r is Err,
    {
        let ghost s0 = *fs;
        let mut dir = Directory::new();
        proof {
            reveal(FatFS::root_dir_reads);
        }
        if inode == 0 {
            // the FAT-16 root directory has sectors of its own
            let first = fs.fat16_first_root_disk_sector;
            let count = fs.fat16_root_disk_sector_count;
            if first as u64 + count as u64 > u32::MAX as u64 {
                return Err(Error::io("root directory out of range"));
            }
            let mut s = first;
            while s < first + count
                invariant
                    s0 == *old(fs),
                    first == s0.fat16_first_root_disk_sector,
                    first as int + count as int <= u32::MAX,
                    first <= s <= first + count,
                    dir.wf(),
                    fs.layout_wf(),
                    forall|t: BlockSector| #[trigger] fs.block.sector_data(t) == old(fs).block.sector_data(t),
                    fs.fat == old(fs).fat,
                    fs.file_info == old(fs).file_info,
                    fs.root_inode == old(fs).root_inode,
                    fs.disk_sectors_per_cluster == old(fs).disk_sectors_per_cluster,
                    fs.first_cluster_disk_sector == old(fs).first_cluster_disk_sector,
                    fs.fat16_first_root_disk_sector == old(fs).fat16_first_root_disk_sector,
                    fs.fat16_root_disk_sector_count == old(fs).fat16_root_disk_sector_count,
                    sectors_bytes(&s0.block, first as int, s - first).len() == 512 * (s - first),
                    records_fold(empty_dir_state(), sectors_bytes(&s0.block, first as int, s - first), 16 * (s - first))
                        == Some(dir.view()),
                    count == s0.fat16_root_disk_sector_count,
                    inode == 0,
                    forall|t: BlockSector| #[trigger] fs.block.sector_readable(t) == s0.block.sector_readable(t),
                decreases first + count - s,
            {
                let ghost before = dir.view();
                let ghost a = sectors_bytes(&s0.block, first as int, s - first);
                proof {
                    reveal(FatFS::root_dir_reads);
                    if s0.root_dir_reads() {
                        lemma_fold_sector_step(&s0.block, first as int, s - first, count as int, before);
                        assert(s0.block.sector_readable((s as int) as BlockSector));
                    }
                }
                fs.read_sector_records(&mut dir, s)?;
                proof {
                    let b = s0.block.sector_data(s);
                    assert(sectors_bytes(&s0.block, first as int, s + 1 - first) == a + b);
                    lemma_fold_append(empty_dir_state(), a, b, 16 * (s - first), 16);
                }
                s = s + 1;
            }
            return Ok(dir);
        }
        let entry_count: usize = if fs.fat.kind == crate::fs::fat::fat::FatType::Fat16 {
            fs.fat.data.len() / 2
        } else {
            fs.fat.data.len() / 4
        };
        let mut cluster = inode;
        let mut fuel: u64 = fs.fat.cluster_count as u64 + 1;
        let ghost mut chain: Seq<u32> = Seq::empty();
        let ghost mut nr: int = 0;
        proof {
            reveal(FatFS::dir_chain_reads);
        }
        let ghost reads = s0.dir_chain_reads(inode);
        let ghost cl: Seq<u32> = choose|cl: Seq<u32>| s0.chain_reads_with(inode, cl);
        proof {
            assert(Seq::<u32>::empty() =~= cl.take(0));
        }
        loop
            invariant
                s0 == *old(fs),
                inode != 0,
                forall|t: BlockSector| #[trigger] fs.block.sector_readable(t) == s0.block.sector_readable(t),
                reads == s0.dir_chain_reads(inode),
                reads ==> {
                    &&& s0.chain_reads_with(inode, cl)
                    &&& chain.len() < cl.len()
                    &&& chain == cl.take(chain.len() as int)
                    &&& cluster == cl[chain.len() as int]
                    &&& fuel == s0.fat.cluster_count + 1 - chain.len()
                    &&& nr == 16 * s0.disk_sectors_per_cluster * chain.len()
                },
                entry_count == fs.fat.entry_count(),
                dir.wf(),
                fs.layout_wf(),
                forall|t: BlockSector| #[trigger] fs.block.sector_data(t) == old(fs).block.sector_data(t),
                fs.fat == old(fs).fat,
                fs.file_info == old(fs).file_info,
                fs.root_inode == old(fs).root_inode,
                fs.disk_sectors_per_cluster == old(fs).disk_sectors_per_cluster,
                fs.first_cluster_disk_sector == old(fs).first_cluster_disk_sector,
                fs.fat16_first_root_disk_sector == old(fs).fat16_first_root_disk_sector,
                fs.fat16_root_disk_sector_count == old(fs).fat16_root_disk_sector_count,
                chain.len() == 0 ==> cluster == inode,
                chain.len() > 0 ==> chain[0] == inode && s0.fat.spec_entry(chain.last() as int) == FatEntry::HasNext(cluster),
                forall|k: int| 0 <= k < chain.len() - 1 ==> s0.fat.spec_entry(#[trigger] chain[k] as int) == FatEntry::HasNext(chain[k + 1]),
                nr >= 0,
                s0.chain_bytes(chain).len() == 32 * nr,
                records_fold(empty_dir_state(), s0.chain_bytes(chain), nr) == Some(dir.view()),
            decreases fuel,
        {
            proof {
                if reads {
                    let j = chain.len() as int;
                    assert(2 <= cl[j] < s0.fat.entry_count());
                    assert(s0.cluster_reads(cl[j]));
                }
            }
            if cluster as usize >= entry_count {
                return Err(Error::io("cluster number out of range in directory"));
            }
            let first = match fs.first_disk_sector_in_cluster(cluster) {
                Some(s) => s,
                None => return Err(Error::io("cluster number out of range in directory")),
            };
            let count = fs.disk_sectors_per_cluster;
            proof {
                if reads {
                    let j = chain.len() as int;
                    let dspc = s0.disk_sectors_per_cluster as int;
                    assert(32 * (16 * dspc * j) == 512 * dspc * j) by (nonlinear_arith);
                }
            }
            let ghost acc = s0.chain_bytes(chain);
            proof {
                assert(acc + sectors_bytes(&s0.block, first as int, 0) =~= acc);
            }
            let mut s = first;
            while s < first + count
                invariant
                    s0 == *old(fs),
                    first as int + count as int <= u32::MAX,
                    first <= s <= first + count,
                    count == fs.disk_sectors_per_cluster,
                    dir.wf(),
                    fs.layout_wf(),
                    forall|t: BlockSector| #[trigger] fs.block.sector_data(t) == old(fs).block.sector_data(t),
                    fs.fat == old(fs).fat,
                    fs.file_info == old(fs).file_info,
                    fs.root_inode == old(fs).root_inode,
                    fs.disk_sectors_per_cluster == old(fs).disk_sectors_per_cluster,
                    fs.first_cluster_disk_sector == old(fs).first_cluster_disk_sector,
                    fs.fat16_first_root_disk_sector == old(fs).fat16_first_root_disk_sector,
                    fs.fat16_root_disk_sector_count == old(fs).fat16_root_disk_sector_count,
                    nr >= 0,
                    acc.len() == 32 * nr,
                    inode != 0,
                    first == s0.cluster_first_sector(cluster),
                    forall|t: BlockSector| #[trigger] fs.block.sector_readable(t) == s0.block.sector_readable(t),
                    reads == s0.dir_chain_reads(inode),
                    reads ==> {
                        &&& s0.chain_reads_with(inode, cl)
                        &&& chain.len() < cl.len()
                        &&& chain == cl.take(chain.len() as int)
                        &&& cluster == cl[chain.len() as int]
                        &&& nr == 16 * s0.disk_sectors_per_cluster * chain.len()
                        &&& acc == s0.chain_bytes(cl.take(chain.len() as int))
                        &&& acc.len() == 512 * s0.disk_sectors_per_cluster * chain.len()
                    },
                    sectors_bytes(&s0.block, first as int, s - first).len() == 512 * (s - first),
                    records_fold(empty_dir_state(), acc + sectors_bytes(&s0.block, first as int, s - first), nr + 16 * (s - first))
                        == Some(dir.view()),
                decreases first + count - s,
            {
                let ghost mid = dir.view();
                proof {
                    if reads {
                        let j = chain.len() as int;
                        s0.lemma_chain_sector_step(cl, j, s - first, mid);
                        assert(s0.cluster_reads(cl[j]));
                        assert(s0.block.sector_readable((s0.cluster_first_sector(cl[j]) + (s - first)) as BlockSector));
                    }
                }
                fs.read_sector_records(&mut dir, s)?;
                proof {
                    lemma_fold_next_sector(acc, nr, &s0.block, first as int, s - first, mid, dir.view());
                }
                s = s + 1;
            }
            proof {
                assert(acc + sectors_bytes(&s0.block, first as int, 0) =~= acc);
            }
            let ghost next_chain = chain.push(cluster);
            proof {
                assert(next_chain.drop_last() =~= chain);
                assert(s0.cluster_first_sector(cluster) == first as int);
                assert(s0.chain_bytes(next_chain) == acc + sectors_bytes(&s0.block, first as int, count as int));
                assert forall|k: int| 0 <= k < next_chain.len() - 1 implies s0.fat.spec_entry(#[trigger] next_chain[k] as int)
                    == FatEntry::HasNext(next_chain[k + 1]) by {
                    if k < chain.len() - 1 {
                        assert(next_chain[k] == chain[k] && next_chain[k + 1] == chain[k + 1]);
                    } else {
                        assert(next_chain[k] == chain.last());
                    }
                }
            }
            proof {
                if reads {
                    let j = chain.len() as int;
                    assert(next_chain =~= cl.take(j + 1));
                    if j < cl.len() - 1 {
                        assert(s0.fat.spec_entry(cl[j] as int) == FatEntry::HasNext(cl[j + 1]));
                    } else {
                        assert(s0.fat.spec_entry(cl.last() as int) is Eof);
                    }
                }
            }
            match fs.fat.entry(cluster) {
                FatEntry::HasNext(next) => {
                    cluster = next;
                    proof {
                        chain = next_chain;
                        nr = nr + 16 * count;
                        if reads {
                            let j = chain.len() as int;
                            let dspc = s0.disk_sectors_per_cluster as int;
                            assert(16 * dspc * (j - 1) + 16 * dspc == 16 * dspc * j) by (nonlinear_arith);
                        }
                    }
                },
                FatEntry::Eof => {
                    proof {
                        assert(is_chain(s0.fat, inode, next_chain));
                        let total = nr + 16 * count;
                        assert(s0.chain_bytes(next_chain).len() as int / 32 == total) by (nonlinear_arith)
                            requires s0.chain_bytes(next_chain).len() == 32 * total;
                    }
                    return Ok(dir);
                },
                _ => return Err(Error::io("cluster is referenced but not allocated.")),
            }
            if fuel == 0 {
                return Err(Error::io("cluster chain of directory loops"));
            }
            fuel = fuel - 1;
        }
    }
}

/// Recording entry `k` (inode `inode`, information `info`) of directory
/// state `dv` as a new record keeps the catalog's directories closed, but the
/// one being read (`jd`) and those waiting to be read (`wj`), and records
/// entries up to `k`.
proof fn lemma_catalog_step<B: BlockOp>(
    a: &FatFS<B>,
    b: &FatFS<B>,
    inode: INodeNum,
    info: FileInfo,
    wj_k: Seq<int>,
    wj: Seq<int>,
    jd: int,
    dv: DirState,
    k: int,
)
    requires
        b.file_info@.len() == a.file_info@.len() + 1,
        forall|i: int| 0 <= i < a.file_info@.len() ==> #[trigger] b.file_info@[i] == a.file_info@[i],
        b.file_info@[a.file_info@.len() as int].0 == inode,
        b.file_info@[a.file_info@.len() as int].1.vfs == info,
        b.info(inode) is Some,
        forall|i: INodeNum| i != inode ==> #[trigger] b.info(i) == a.info(i),
        forall|ino: INodeNum, d: DirState| #[trigger] a.dir_contents(ino, d) == b.dir_contents(ino, d),
        forall|j: int|
            0 <= j < a.file_info@.len() && a.file_info@[j].1.vfs.kind == INodeType::Directory && !wj_k.contains(j) && j != jd
                ==> #[trigger] a.dir_closed(j),
        wj == (if info.kind == INodeType::Directory { wj_k.push(a.file_info@.len() as int) } else { wj_k }),
        0 <= k < dv.0.len(),
        dv.0[k].1.inode == inode,
        forall|e: int| 0 <= e < k ==> a.info(#[trigger] dv.0[e].1.inode) is Some,
    ensures
        forall|j: int|
            0 <= j < b.file_info@.len() && b.file_info@[j].1.vfs.kind == INodeType::Directory && !wj.contains(j) && j != jd
                ==> #[trigger] b.dir_closed(j),
        forall|e: int| 0 <= e < k + 1 ==> b.info(#[trigger] dv.0[e].1.inode) is Some,
{
    let n = a.file_info@.len() as int;
    assert forall|i: INodeNum| a.info(i) is Some implies #[trigger] b.info(i) is Some by {
        if i != inode {
            assert(b.info(i) == a.info(i));
        }
    }
    assert forall|j: int|
        0 <= j < b.file_info@.len() && b.file_info@[j].1.vfs.kind == INodeType::Directory && !wj.contains(j) && j != jd implies #[trigger] b.dir_closed(
        j,
    ) by {
        if j < n {
            if wj_k.contains(j) {
                let w = choose|w: int| 0 <= w < wj_k.len() && wj_k[w] == j;
                if info.kind == INodeType::Directory {
                    assert(wj[w] == j);
                } else {
                    assert(wj[w] == j);
                }
            }
            assert(a.dir_closed(j));
            lemma_closed_grow(a, b, j);
        } else {
            if info.kind == INodeType::Directory {
                assert(wj[wj.len() - 1] == n);
            }
        }
    }
    assert forall|e: int| 0 <= e < k + 1 implies b.info(#[trigger] dv.0[e].1.inode) is Some by {
        if e < k {
            assert(a.info(dv.0[e].1.inode) is Some);
        }
    }
}

impl<B: BlockOp> FatFS<B> {
    /// Learn every file of the file system: walk the directory tree from the
    /// root, recording each entry's information and clusters (the first
    /// entry for an inode wins).
    #[verifier::rlimit(100)]
    fn build_catalog(&mut self) -> (r: Result<()>)
        requires
            old(self).layout_wf(),
            old(self).file_info@.len() == 0,
        ensures
            final(self).layout_wf(),
            final(self).fat == old(self).fat,
            forall|s: BlockSector| #[trigger] final(self).block.sector_data(s) == old(self).block.sector_data(s),
            final(self).root_inode == old(self).root_inode,
            final(self).disk_sectors_per_cluster == old(self).disk_sectors_per_cluster,
            final(self).first_cluster_disk_sector == old(self).first_cluster_disk_sector,
            final(self).fat16_first_root_disk_sector == old(self).fat16_first_root_disk_sector,
            final(self).fat16_root_disk_sector_count == old(self).fat16_root_disk_sector_count,
            r is Ok ==> (final(self).info(final(self).root_inode) matches Some(fi) && fi.vfs.kind == INodeType::Directory),
            r is Ok ==> final(self).catalog_sound(),
            r is Ok ==> final(self).catalog_complete(),
    {
        let root = self.root_inode;
        let root_clusters = self.clusters_for_file(root)?;
        let ghost f0 = self.file_info@;
        self.insert_info(root, FatFileInfo { vfs: FileInfo { inode: root, size: 0, kind: INodeType::Directory, nlink: 1 }, clusters: root_clusters });
        let mut worklist: Vec<INodeNum> = Vec::new();
        worklist.push(root);
        let ghost mut wj: Seq<int> = seq![0int];
        proof {
            assert forall|j: int|
                0 <= j < self.file_info@.len() && self.file_info@[j].1.vfs.kind == INodeType::Directory && !wj.contains(j)
                    implies #[trigger] self.dir_closed(j) by {
                assert(wj[0] == 0);
            }
        }
        let mut fuel: u64 = self.fat.cluster_count as u64 + 2;
        while worklist.len() > 0
            invariant
                self.layout_wf(),
                self.fat == old(self).fat,
                forall|s: BlockSector| #[trigger] self.block.sector_data(s) == old(self).block.sector_data(s),
                self.root_inode == old(self).root_inode,
                self.disk_sectors_per_cluster == old(self).disk_sectors_per_cluster,
                self.first_cluster_disk_sector == old(self).first_cluster_disk_sector,
                self.fat16_first_root_disk_sector == old(self).fat16_first_root_disk_sector,
                self.fat16_root_disk_sector_count == old(self).fat16_root_disk_sector_count,
                (self.info(self.root_inode) matches Some(fi) && fi.vfs.kind == INodeType::Directory),
                self.catalog_sound(),
                wj.len() == worklist@.len(),
                forall|w: int| 0 <= w < wj.len() ==> 0 <= #[trigger] wj[w] < self.file_info@.len() && self.file_info@[wj[w]].0
                    == worklist@[w] && self.file_info@[wj[w]].1.vfs.kind == INodeType::Directory,
                forall|j: int|
                    0 <= j < self.file_info@.len() && self.file_info@[j].1.vfs.kind == INodeType::Directory && !wj.contains(j)
                        ==> #[trigger] self.dir_closed(j),
            decreases fuel,
        {
            if fuel == 0 {
                return Err(Error::io("directory tree loops"));
            }
            fuel = fuel - 1;
            let ghost jd = wj.last();
            let ghost wj_old = wj;
            let dir_inode = worklist.pop().unwrap();
            proof {
                wj = wj.drop_last();
            }
            let ghost s_r = *self;
            let dir = Directory::read(self, dir_inode)?;
            proof {
                lemma_same_dir_contents(&s_r, self);
                lemma_sound_grow(&s_r, self);
                assert(self.file_info@ == s_r.file_info@);
                assert forall|j: int|
                    0 <= j < self.file_info@.len() && self.file_info@[j].1.vfs.kind == INodeType::Directory && !wj.contains(j)
                        && j != jd implies #[trigger] self.dir_closed(j) by {
                    if wj_old.contains(j) {
                        let w = choose|w: int| 0 <= w < wj_old.len() && wj_old[w] == j;
                        if w < wj_old.len() - 1 {
                            assert(wj[w] == j);
                        }
                    }
                    assert(s_r.dir_closed(j));
                    lemma_closed_grow(&s_r, self, j);
                }
            }
            let mut k: usize = 0;
            while k < dir.entries.len()
                invariant
                    k <= dir.entries@.len(),
                    dir.wf(),
                    self.layout_wf(),
                    self.fat == old(self).fat,
                    forall|s: BlockSector| #[trigger] self.block.sector_data(s) == old(self).block.sector_data(s),
                    self.root_inode == old(self).root_inode,
                    self.disk_sectors_per_cluster == old(self).disk_sectors_per_cluster,
                    self.first_cluster_disk_sector == old(self).first_cluster_disk_sector,
                    self.fat16_first_root_disk_sector == old(self).fat16_first_root_disk_sector,
                    self.fat16_root_disk_sector_count == old(self).fat16_root_disk_sector_count,
                    (self.info(self.root_inode) matches Some(fi) && fi.vfs.kind == INodeType::Directory),
                    self.catalog_sound(),
                    0 <= jd < self.file_info@.len(),
                    self.file_info@[jd].0 == dir_inode,
                    self.file_info@[jd].1.vfs.kind == INodeType::Directory,
                    self.dir_contents(dir_inode, dir.view()),
                    wj.len() == worklist@.len(),
                    forall|w: int| 0 <= w < wj.len() ==> 0 <= #[trigger] wj[w] < self.file_info@.len() && self.file_info@[wj[w]].0
                        == worklist@[w] && self.file_info@[wj[w]].1.vfs.kind == INodeType::Directory,
                    forall|j: int|
                        0 <= j < self.file_info@.len() && self.file_info@[j].1.vfs.kind == INodeType::Directory && !wj.contains(j)
                            && j != jd ==> #[trigger] self.dir_closed(j),
                    forall|e: int| 0 <= e < k ==> self.info(#[trigger] dir.view().0[e].1.inode) is Some,
                decreases dir.entries@.len() - k,
            {
                let info = dir.entries[k].info;
                assert(dir.entries@[k as int].info.size <= u32::MAX);
                let inode = info.inode;
                let ghost wj_k = wj;
                let ghost s_k = *self;
                assert(dir.view().0[k as int].1 == info);
                if self.find_info(inode).is_none() {
                    let ghost s_a = *self;
                    let clusters = self.clusters_for_file(inode)?;
                    self.insert_info(inode, FatFileInfo { vfs: info, clusters });
                    proof {
                        let n = s_a.file_info@.len() as int;
                        assert forall|i: int| 0 <= i < s_a.file_info@.len() implies #[trigger] self.file_info@[i] == s_a.file_info@[i] by {}
                        lemma_same_dir_contents(&s_a, self);
                        lemma_sound_grow(&s_a, self);
                        assert(dir.view().0[k as int].1 == info);
                        assert(self.dir_contents(self.file_info@[jd].0, dir.view()));
                        assert(self.lists(jd, info));
                        assert(self.file_info@[n].1.vfs == info);
                        assert forall|i: int|
                            0 <= i < self.file_info@.len() && self.file_info@[i].0 != self.root_inode implies exists|j: int| #[trigger]
                                self.lists(j, self.file_info@[i].1.vfs) by {
                            if i == n {
                                assert(self.lists(jd, self.file_info@[i].1.vfs));
                            }
                        }
                    }
                    if info.kind == INodeType::Directory {
                        worklist.push(inode);
                        proof {
                            wj = wj.push(s_a.file_info@.len() as int);
                        }
                    }
                    proof {
                        lemma_catalog_step(&s_a, self, inode, info, wj_k, wj, jd, dir.view(), k as int);
                    }
                } else {
                    proof {
                        assert(self.info(inode) is Some);
                    }
                }
                k = k + 1;
            }
            proof {
                assert forall|j: int|
                    0 <= j < self.file_info@.len() && self.file_info@[j].1.vfs.kind == INodeType::Directory && !wj.contains(j)
                        implies #[trigger] self.dir_closed(j) by {
                    if j == jd {
                        assert forall|d: DirState, e: int| self.dir_contents(self.file_info@[j].0, d) && 0 <= e < d.0.len()
                            implies self.info(#[trigger] d.0[e].1.inode) is Some by {
                            lemma_dir_contents_unique(self, dir_inode, d, dir.view());
                        }
                    }
                }
            }
        }
        proof {
            assert forall|j: int|
                0 <= j < self.file_info@.len() && self.file_info@[j].1.vfs.kind == INodeType::Directory implies #[trigger] self.dir_closed(
                j,
            ) by {
                assert(!wj.contains(j));
            }
        }
        Ok(())
    }

    /// Record `fi` for inode `ino`, which has no record yet.
    fn insert_info(&mut self, ino: INodeNum, fi: FatFileInfo)
        requires
            old(self).layout_wf(),
            old(self).info(ino) is None,
            fi.vfs.size <= u32::MAX,
            old(self).record_ok((ino, fi)),
        ensures
            final(self).layout_wf(),
            final(self).block == old(self).block,
            final(self).fat == old(self).fat,
            final(self).root_inode == old(self).root_inode,
            final(self).disk_sectors_per_cluster == old(self).disk_sectors_per_cluster,
            final(self).first_cluster_disk_sector == old(self).first_cluster_disk_sector,
            final(self).fat16_first_root_disk_sector == old(self).fat16_first_root_disk_sector,
            final(self).fat16_root_disk_sector_count == old(self).fat16_root_disk_sector_count,
            final(self).info(ino) == Some(fi),
            forall|i: INodeNum| i != ino ==> #[trigger] final(self).info(i) == old(self).info(i),
            final(self).file_info@ == old(self).file_info@.push((ino, fi)),
    {
        let ghost f0 = self.file_info@;
        proof {
            crate::assoc::lemma_assoc_get_some(f0, ino);
        }
        self.file_info.push((ino, fi));
        proof {
            lemma_distinct_push(f0, (ino, fi));
            assert forall|i: INodeNum| #[trigger] assoc_get(self.file_info@, i) == (match assoc_get(f0, i) {
                Some(v) => Some(v),
                None => if i == ino { Some(fi) } else { None },
            }) by {
                lemma_assoc_get_push(f0, (ino, fi), i);
            }
            assert forall|i: int| 0 <= i < self.file_info@.len() implies (#[trigger] self.file_info@[i]).1.vfs.size <= u32::MAX by {
                if i < f0.len() {
                    assert(self.file_info@[i] == f0[i]);
                }
            }
            assert forall|i: int| 0 <= i < self.file_info@.len() implies self.record_ok(#[trigger] self.file_info@[i]) by {
                if i < f0.len() {
                    assert(self.file_info@[i] == f0[i]);
                }
            }
        }
    }

    /// Open the FAT file system on `block`: read its boot sector, its FAT,
    /// and what its directories say of every file.
    pub fn new(block: B) -> (r: Result<FatFS<B>>)
        requires
            layout_fits(spec_boot_sector(block.sector_data(0))),
        ensures
            r matches Ok(fs) ==> {
                &&& fs.layout_wf()
                &&& spec_geometry(spec_boot_sector(block.sector_data(0))) matches Some(g)
                &&& fs.root_inode == g.root_inode
                &&& fs.disk_sectors_per_cluster == g.disk_sectors_per_cluster
                &&& fs.first_cluster_disk_sector == g.first_cluster_disk_sector
                &&& fs.fat.kind == g.kind
                &&& fs.fat.cluster_count == g.cluster_count
                &&& forall|s: BlockSector| #[trigger] fs.block.sector_data(s) == block.sector_data(s)
                &&& fs.info(fs.root_inode) matches Some(fi) && fi.vfs.kind == INodeType::Directory
                &&& fs.catalog_sound()
                &&& fs.catalog_complete()
            },
    {
        let mut block = block;
        let mut first_sector: Vec<u8> = Vec::new();
        while first_sector.len() < BLOCK_SECTOR_SIZE
            invariant
                first_sector@.len() <= BLOCK_SECTOR_SIZE,
            decreases BLOCK_SECTOR_SIZE - first_sector@.len(),
        {
            first_sector.push(0);
        }
        let ghost b0 = block;
        match block.read(0, first_sector.as_mut_slice()) {
            Ok(()) => {},
            Err(e) => return Err(Error::from_block_error(e)),
        }
        let bs = read_boot_sector(first_sector.as_slice());
        proof {
            let s = first_sector@;
            assert(bs.fat16_root_ent_count <= u16::MAX && bs.reserved_sector_count <= u16::MAX && bs.ext_flags <= u16::MAX);
            assert(spec_boot_sector(b0.sector_data(0)) == bs);
        }
        let g = geometry(&bs)?;
        proof {
            let d = bs.bytes_per_sector / 512;
            let c = bs.sectors_per_cluster;
            assert(d == 1 || d == 2 || d == 4 || d == 8);
            assert(c == 1 || c == 2 || c == 4 || c == 8 || c == 16 || c == 32 || c == 64 || c == 128);
            assert(1 <= d * c <= 1024) by (nonlinear_arith)
                requires
                    d == 1 || d == 2 || d == 4 || d == 8,
                    1 <= c <= 128,
            ;
        }
        let ghost b1 = block;
        let fat = Fat::new(&mut block, g.cluster_count, g.kind, g.fat_first_disk_sector, g.fat_first_disk_sector + g.fat_disk_sector_count, g.num_fats)?;
        let mut fs = FatFS {
            block,
            root_inode: g.root_inode,
            fat16_first_root_disk_sector: g.fat16_first_root_disk_sector,
            fat16_root_disk_sector_count: g.fat16_root_disk_sector_count,
            disk_sectors_per_cluster: g.disk_sectors_per_cluster,
            first_cluster_disk_sector: g.first_cluster_disk_sector,
            fat,
            file_info: Vec::new(),
        };
        proof {
            assert(distinct_keys(fs.file_info@));
        }
        fs.build_catalog()?;
        Ok(fs)
    }
}

/// Two states of a FAT file system with the same records, layout and disk
/// contents hold the same files.
proof fn lemma_same_disk<B: BlockOp>(a: &FatFS<B>, b: &FatFS<B>)
    requires
        a.file_info == b.file_info,
        a.disk_sectors_per_cluster == b.disk_sectors_per_cluster,
        a.first_cluster_disk_sector == b.first_cluster_disk_sector,
        forall|s: BlockSector| #[trigger] a.block.sector_data(s) == b.block.sector_data(s),
    ensures
        forall|i: INodeNum| #[trigger] a.file_data(i) == b.file_data(i),
        forall|i: INodeNum| #[trigger] a.inode_kind(i) == b.inode_kind(i),
{
    assert forall|i: INodeNum| #[trigger] a.file_data(i) == b.file_data(i) by {
        if let Some(fi) = a.info(i) {
            assert(a.file_bytes(fi) =~= b.file_bytes(fi));
        }
    }
}

/// A directory's records fold to one state at most.
pub proof fn lemma_dir_contents_unique<B: BlockOp>(fs: &FatFS<B>, inode: INodeNum, d1: DirState, d2: DirState)
    requires
        fs.dir_contents(inode, d1),
        fs.dir_contents(inode, d2),
    ensures
        d1 == d2,
{
    if inode != 0 {
        let c1 = choose|cl: Seq<u32>| is_chain(fs.fat, inode, cl) && records_fold(empty_dir_state(), fs.chain_bytes(cl), fs.chain_bytes(cl).len() as int / 32) == Some(d1);
        let c2 = choose|cl: Seq<u32>| is_chain(fs.fat, inode, cl) && records_fold(empty_dir_state(), fs.chain_bytes(cl), fs.chain_bytes(cl).len() as int / 32) == Some(d2);
        lemma_chain_unique(fs.fat, inode, c1, c2);
    }
}

/// Two states whose directories fold alike list the same entries.
proof fn lemma_same_dir_entries<B: BlockOp>(a: &FatFS<B>, b: &FatFS<B>)
    requires
        forall|inode: INodeNum, d: DirState| #[trigger] a.dir_contents(inode, d) == b.dir_contents(inode, d),
    ensures
        forall|dir: INodeNum| #[trigger] a.dir_entries(dir) == b.dir_entries(dir),
{
    assert forall|dir: INodeNum| #[trigger] a.dir_entries(dir) == b.dir_entries(dir) by {
        if exists|d: DirState| a.dir_contents(dir, d) {
            let da = choose|d: DirState| a.dir_contents(dir, d);
            assert(b.dir_contents(dir, da));
            let db = choose|d: DirState| b.dir_contents(dir, d);
            assert(a.dir_contents(dir, db));
            lemma_dir_contents_unique(a, dir, da, db);
        } else {
            assert forall|d: DirState| !b.dir_contents(dir, d) by {
                assert(!a.dir_contents(dir, d));
            }
        }
    }
}

impl<B: BlockOp> FileSystem for FatFS<B> {
    open spec fn fs_inv(&self) -> bool {
        self.layout_wf()
    }

    /// The bytes of a regular file whose clusters cover its size.
    open spec fn file_data(&self, ino: INodeNum) -> Option<Seq<u8>> {
        match self.info(ino) {
            Some(fi) => if fi.vfs.kind == INodeType::File && self.covered(fi) {
                Some(self.file_bytes(fi))
            } else {
                None
            },
            None => None,
        }
    }

    open spec fn inode_kind(&self, ino: INodeNum) -> Option<INodeType> {
        match self.info(ino) {
            Some(fi) => Some(fi.vfs.kind),
            None => None,
        }
    }

    open spec fn spec_root(&self) -> INodeNum {
        self.root_inode
    }

    /// The entries that the directory's records describe, where they fold
    /// to a directory (its records are one run of clusters, so that state is
    /// the only one).
    open spec fn dir_entries(&self, dir: INodeNum) -> Option<Seq<(INodeNum, INodeType, Seq<u8>)>> {
        if exists|d: DirState| self.dir_contents(dir, d) {
            Some(dir_listing(choose|d: DirState| self.dir_contents(dir, d)))
        } else {
            None
        }
    }

    fn root(&self) -> (r: INodeNum) {
        self.root_inode
    }

    fn open(&mut self, inode: INodeNum) -> (r: Result<()>)
        ensures
            r is Ok <==> ((inode as int) < old(self).fat.entry_count() && (old(self).fat.spec_entry(inode as int) is Eof
                || old(self).fat.spec_entry(inode as int) is HasNext) && old(self).info(inode) is Some),
            *final(self) == *old(self),
    {
        let entry_count: usize = if self.fat.kind == crate::fs::fat::fat::FatType::Fat16 {
            self.fat.data.len() / 2
        } else {
            self.fat.data.len() / 4
        };
        if inode as usize >= entry_count || !self.fat.is_cluster_allocated(inode) {
            return Err(Error::NotFound);
        }
        if self.find_info(inode).is_none() {
            // the inode was opened without its directory entry being read
            return Err(Error::NotFound);
        }
        Ok(())
    }

    fn release(&mut self, inode: INodeNum) {
    }

    fn create(&mut self, parent: INodeNum, name: &[u8]) -> (r: Result<INodeNum>)
        ensures
            r matches Err(Error::ReadOnlyFS),
    {
        Err(Error::ReadOnlyFS)
    }

    fn mkdir(&mut self, parent: INodeNum, name: &[u8]) -> (r: Result<INodeNum>)
        ensures
            r matches Err(Error::ReadOnlyFS),
    {
        Err(Error::ReadOnlyFS)
    }

    fn unlink(&mut self, parent: INodeNum, name: &[u8]) -> (r: Result<()>)
        ensures
            r matches Err(Error::ReadOnlyFS),
    {
        Err(Error::ReadOnlyFS)
    }

    fn rmdir(&mut self, parent: INodeNum, name: &[u8]) -> (r: Result<()>)
        ensures
            r matches Err(Error::ReadOnlyFS),
    {
        Err(Error::ReadOnlyFS)
    }

    /// The entries that the directory's records describe, in order, each
    /// with its name up to the NUL that ends it.
    fn readdir(&mut self, dir: INodeNum) -> (r: Result<Vec<RawDirEntry>>)
        ensures
            r matches Ok(v) ==> exists|d: DirState| #[trigger] old(self).dir_contents(dir, d) && raw_listing(v@)
                == dir_listing(d),
    {
        let ghost s0 = *self;
        let d = Directory::read(self, dir);
        proof {
            lemma_same_disk(&s0, self);
            lemma_same_dir_contents(&s0, self);
            lemma_same_dir_entries(&s0, self);
        }
        let d = d?;
        let ghost dv = d.view();
        let mut entries: Vec<RawDirEntry> = Vec::new();
        let mut k: usize = 0;
        while k < d.entries.len()
            invariant
                k <= d.entries@.len(),
                dv == d.view(),
                entries@.len() == k,
                raw_listing(entries@) == dir_listing(dv).take(k as int),
            decreases d.entries@.len() - k,
        {
            let start = d.entries[k].name;
            let mut name: Vec<u8> = Vec::new();
            let mut j = start;
            while j < d.names.len() && d.names[j] != 0
                invariant
                    start <= j,
                    j <= d.names@.len() || j == start,
                    start <= d.names@.len() ==> name@ == d.names@.subrange(start as int, j as int),
                    start > d.names@.len() ==> name@.len() == 0,
                    forall|m: int| start <= m < j ==> d.names@[m] != 0,
                decreases d.names@.len() - j,
            {
                name.push(d.names[j]);
                j = j + 1;
                proof {
                    if start <= d.names@.len() {
                        assert(name@ =~= d.names@.subrange(start as int, j as int));
                    }
                }
            }
            proof {
                if start <= d.names@.len() {
                    let rest = d.names@.skip(start as int);
                    if j < d.names@.len() {
                        lemma_nul_at(rest, j - start);
                        assert(rest.subrange(0, j - start) =~= d.names@.subrange(start as int, j as int));
                    } else {
                        lemma_nul_none(rest);
                        assert(rest =~= d.names@.subrange(start as int, j as int));
                    }
                }
                assert(name@ == entry_name(dv, k as int));
            }
            let info = d.entries[k].info;
            let ghost name_view = name@;
            let ghost prev = entries@;
            entries.push(RawDirEntry { inode: info.inode, kind: info.kind, name });
            proof {
                assert(dv.0[k as int] == (start, info));
                assert(dir_listing(dv)[k as int] == (info.inode, info.kind, name_view));
                assert(entries@[k as int].name@ == name_view);
                assert forall|i: int| 0 <= i < k + 1 implies #[trigger] raw_listing(entries@)[i] == dir_listing(dv).take(k + 1)[i] by {
                    if i < k {
                        assert(entries@[i] == prev[i]);
                        assert(raw_listing(prev)[i] == dir_listing(dv).take(k as int)[i]);
                    }
                }
                assert(raw_listing(entries@) =~= dir_listing(dv).take(k + 1));
            }
            k = k + 1;
        }
        proof {
            assert(dir_listing(dv).take(k as int) =~= dir_listing(dv));
            assert(s0.dir_contents(dir, dv));
            let c = choose|x: DirState| s0.dir_contents(dir, x);
            lemma_dir_contents_unique(&s0, dir, c, dv);
        }
        Ok(entries)
    }

    /// A file the catalog does not know is not found; a read from past the
    /// largest size a FAT file can have gets nothing.
    #[verifier::spinoff_prover]
    fn read(&mut self, file: INodeNum, offset: u64, buf: &mut [u8]) -> (r: Result<usize>)
        ensures
            old(self).info(file) is None ==> r matches Err(Error::NotFound),
            old(self).info(file) is Some && offset > u32::MAX ==> r == Ok::<usize, Error>(0),
            old(self).info(file) matches Some(fi) && old(self).file_reads(fi) ==> r is Ok,
    {
        let idx = match self.find_info(file) {
            Some(i) => i,
            None => return Err(Error::NotFound),
        };
        let ghost fi = self.file_info@[idx as int].1;
        assert(fi.vfs.size <= u32::MAX);
        if offset > u32::MAX as u64 {
            // a FAT file is smaller than 4 GiB: this is past its end
            return Ok(0);
        }
        let size = self.file_info[idx].1.vfs.size;
        let dspc = self.disk_sectors_per_cluster as u64;
        let cs: u64 = dspc * 512;
        let mut sector_buf: Vec<u8> = Vec::new();
        while sector_buf.len() < BLOCK_SECTOR_SIZE
            invariant
                sector_buf@.len() <= BLOCK_SECTOR_SIZE,
            decreases BLOCK_SECTOR_SIZE - sector_buf@.len(),
        {
            sector_buf.push(0);
        }
        let ghost s0 = *self;
        let blen = buf.len();
        let mut pos: u64 = offset;
        let mut count: usize = 0;
        while count < blen && pos < size
            invariant
                *old(self) == s0,
                old(self).info(file) is Some,
                self.file_info == s0.file_info,
                self.fat == s0.fat,
                self.root_inode == s0.root_inode,
                self.disk_sectors_per_cluster == s0.disk_sectors_per_cluster,
                self.first_cluster_disk_sector == s0.first_cluster_disk_sector,
                self.fat16_first_root_disk_sector == s0.fat16_first_root_disk_sector,
                self.fat16_root_disk_sector_count == s0.fat16_root_disk_sector_count,
                forall|t: BlockSector| #[trigger] self.block.sector_data(t) == s0.block.sector_data(t),
                forall|t: BlockSector| #[trigger] self.block.sector_readable(t) == s0.block.sector_readable(t),
                s0.layout_wf(),
                idx < s0.file_info@.len(),
                fi == s0.file_info@[idx as int].1,
                s0.info(file) == Some(fi),
                size == fi.vfs.size,
                size <= u32::MAX,
                offset <= u32::MAX,
                dspc == s0.disk_sectors_per_cluster,
                cs == dspc * 512,
                blen == buf@.len(),
                blen == old(buf)@.len(),
                sector_buf@.len() == BLOCK_SECTOR_SIZE,
                count <= blen,
                pos == offset + count,
                count > 0 ==> pos <= size,
                forall|j: int| 0 <= j < count ==> #[trigger] buf@[j] == s0.byte_at(fi.clusters@, offset + j),
            decreases blen - count,
        {
            let ci = pos / cs;
            let co = pos % cs;
            let nclusters = self.file_info[idx].1.clusters.len();
            proof {
                if s0.file_reads(fi) {
                    let nc = fi.clusters@.len() as int;
                    assert(s0.cluster_size() == cs);
                    assert(pos / cs < nc) by (nonlinear_arith)
                        requires pos < nc * cs, pos >= 0, cs > 0;
                }
            }
            if ci >= nclusters as u64 {
                proof { lemma_same_disk(&s0, self); }
                return Err(Error::io("file is longer than its clusters"));
            }
            let cluster = self.file_info[idx].1.clusters[ci as usize];
            let first = match self.first_disk_sector_in_cluster(cluster) {
                Some(f) => f,
                None => {
                    proof { lemma_same_disk(&s0, self); }
                    return Err(Error::io("cluster number out of range in file"));
                },
            };
            assert(co / 512 < dspc) by (nonlinear_arith)
                requires co < cs, cs == dspc * 512;
            let sector = first + (co / 512) as u32;
            proof {
                if s0.file_reads(fi) {
                    let jj = (co / 512) as int;
                    assert(fi.clusters@[ci as int] == cluster);
                    assert(s0.block.sector_readable((s0.cluster_first_sector(fi.clusters@[ci as int]) + jj) as BlockSector));
                }
            }
            match self.block.read(sector, sector_buf.as_mut_slice()) {
                Ok(()) => {},
                Err(e) => {
                    proof { lemma_same_disk(&s0, self); }
                    return Err(Error::from_block_error(e));
                },
            }
            let so = (pos % 512) as usize;
            let mut n: usize = blen - count;
            if size - pos < n as u64 {
                n = (size - pos) as usize;
            }
            if BLOCK_SECTOR_SIZE - so < n {
                n = BLOCK_SECTOR_SIZE - so;
            }
            let ghost before = buf@;
            let mut k: usize = 0;
            while k < n
                invariant
                    k <= n,
                    count + n <= blen,
                    so + n <= BLOCK_SECTOR_SIZE,
                    buf@.len() == blen,
                    sector_buf@.len() == BLOCK_SECTOR_SIZE,
                    forall|j: int| 0 <= j < count ==> buf@[j] == before[j],
                    forall|j: int| 0 <= j < k ==> #[trigger] buf@[count + j] == sector_buf@[so + j],
                decreases n - k,
            {
                buf[count + k] = sector_buf[so + k];
                k = k + 1;
            }
            proof {
                assert(sector_buf@ == s0.block.sector_data(sector));
                assert forall|j: int| 0 <= j < count + n implies #[trigger] buf@[j] == s0.byte_at(fi.clusters@, offset + j) by {
                    if j >= count {
                        let k2 = j - count;
                        lemma_position(pos as int, k2, dspc as int);
                        assert(buf@[count + k2] == sector_buf@[so + k2]);
                        assert(s0.sector_of(fi.clusters@, pos + k2) == sector);
                    } else {
                        assert(buf@[j] == before[j]);
                    }
                }
            }
            pos = pos + n as u64;
            count = count + n;
        }
        proof {
            lemma_same_disk(&s0, self);
            let d = s0.file_bytes(fi);
            if s0.file_data(file) is Some {
                assert(s0.info(file) == Some(fi));
                assert(buf@.subrange(0, count as int) =~= read_range(d, offset as int, count as int));
            }
        }
        Ok(count)
    }

    fn write(&mut self, file: INodeNum, offset: u64, buf: &[u8]) -> (r: Result<usize>)
        ensures
            r matches Err(Error::ReadOnlyFS),
    {
        Err(Error::ReadOnlyFS)
    }

    fn stat(&mut self, file: INodeNum) -> (r: Result<FileInfo>)
        ensures
            match old(self).info(file) {
                Some(fi) => r == Ok::<FileInfo, Error>(fi.vfs),
                None => r matches Err(Error::NotFound),
            },
    {
        match self.find_info(file) {
            Some(i) => Ok(self.file_info[i].1.vfs),
            None => Err(Error::NotFound),
        }
    }

    fn link(&mut self, source: INodeNum, parent: INodeNum, name: &[u8]) -> (r: Result<()>)
        ensures
            r matches Err(Error::ReadOnlyFS),
    {
        Err(Error::ReadOnlyFS)
    }

    fn symlink(&mut self, link: &[u8], parent: INodeNum, name: &[u8]) -> (r: Result<INodeNum>)
        ensures
            r matches Err(Error::ReadOnlyFS),
    {
        Err(Error::ReadOnlyFS)
    }

    /// A FAT file system has no symbolic links.
    fn readlink(&mut self, link: INodeNum) -> (r: Result<Vec<u8>>)
        ensures
            r matches Err(Error::NotLink),
    {
        Err(Error::NotLink)
    }

    fn truncate(&mut self, file: INodeNum, size: u64) -> (r: Result<()>)
        ensures
            r matches Err(Error::ReadOnlyFS),
    {
        Err(Error::ReadOnlyFS)
    }

    fn sync(&mut self) -> (r: Result<()>)
        ensures
            r is Ok,
    {
        Ok(())
    }
}

} // verus!
