//! The File Allocation Table: which clusters are free or allocated, and the
//! linked list of clusters of each file.
use crate::block::block_core::{BlockOp, BlockSector, BLOCK_SECTOR_SIZE};
use crate::bytes::{le16, le16_at, le32, le32_at, lemma_u16_le_bytes_value, lemma_u32_le_bytes_value, read_u16_le, read_u32_le, u16_le_bytes, u32_le_bytes};
use crate::fs::fat::free_set::FreeSet;
use crate::vfs::{Error, Result};
use vstd::prelude::*;

verus! {

/// The two kinds of FAT this file system reads.
#[derive(Clone, Copy, Debug, PartialEq, Eq, Structural)]
pub enum FatType {
    Fat16,
    Fat32,
}

/// What the FAT says of a cluster.
#[derive(Clone, Copy, Debug, PartialEq, Eq, Structural)]
pub enum FatEntry {
    /// The cluster is free
    Free,
    /// The cluster is the last one of a file
    Eof,
    /// The cluster is defective
    Defective,
    /// The cluster is not the last one of a file; the next one is given
    HasNext(u32),
}

/// The entry that a raw FAT-16 value stands for.
pub open spec fn decode16(raw: u16) -> FatEntry {
    if raw == 0 {
        FatEntry::Free
    } else if raw == 0xFFF7 {
        FatEntry::Defective
    } else if raw >= 0xFFF8 {
        FatEntry::Eof
    } else {
        FatEntry::HasNext(raw as u32)
    }
}

/// The entry that a raw FAT-32 value (its low 28 bits) stands for.
pub open spec fn decode32(raw: u32) -> FatEntry {
    if raw == 0 {
        FatEntry::Free
    } else if raw == 0x0FFF_FFF7 {
        FatEntry::Defective
    } else if raw >= 0x0FFF_FFF8 {
        FatEntry::Eof
    } else {
        FatEntry::HasNext(raw)
    }
}

/// The raw FAT-16 value of an entry.
pub open spec fn encode16(e: FatEntry) -> u16 {
    match e {
        FatEntry::Free => 0,
        FatEntry::Eof => 0xFFFF,
        FatEntry::Defective => 0xFFF7,
        FatEntry::HasNext(n) => n as u16,
    }
}

/// The raw FAT-32 value of an entry.
pub open spec fn encode32(e: FatEntry) -> u32 {
    match e {
        FatEntry::Free => 0,
        FatEntry::Eof => 0x0FFF_FFFF,
        FatEntry::Defective => 0x0FFF_FFF7,
        FatEntry::HasNext(n) => n,
    }
}

/// Whether a FAT of type `kind` can hold entry `e`: the next cluster of a
/// `HasNext` must be below the values that mark defective and last clusters.
pub open spec fn encodable(kind: FatType, e: FatEntry) -> bool {
    match e {
        FatEntry::HasNext(n) => match kind {
            FatType::Fat16 => n < 0xFFF7,
            FatType::Fat32 => n < 0x0FFF_FFF7,
        },
        _ => true,
    }
}

/// The entry a FAT of type `kind` holds for raw bytes `data` at entry `i`.
pub open spec fn entry_in(kind: FatType, data: Seq<u8>, i: int) -> FatEntry {
    match kind {
        FatType::Fat16 => decode16(le16_at(data, 2 * i) as u16),
        FatType::Fat32 => decode32((le32_at(data, 4 * i) as u32) & 0x0FFF_FFFFu32),
    }
}

/// The number of entries that `len` bytes of FAT of type `kind` hold.
pub open spec fn entries_in(kind: FatType, len: int) -> int {
    match kind {
        FatType::Fat16 => len / 2,
        FatType::Fat32 => len / 4,
    }
}

/// Decoding an encoded entry gives it back (for a `HasNext`, whose cluster is
/// never 0).
pub proof fn lemma_entry_roundtrip(kind: FatType, e: FatEntry)
    requires
        encodable(kind, e),
        e matches FatEntry::HasNext(n) ==> n > 0,
    ensures
        kind == FatType::Fat16 ==> decode16(encode16(e)) == e,
        kind == FatType::Fat32 ==> decode32(encode32(e) & 0x0FFF_FFFFu32) == e,
{
    if kind == FatType::Fat32 {
        let v = encode32(e);
        assert(v <= 0x0FFF_FFFF);
        assert(v <= 0x0FFF_FFFFu32 ==> v & 0x0FFF_FFFFu32 == v) by (bit_vector);
    }
}

impl FatEntry {
    /// Whether the entry is that of a cluster in use by a file.
    pub fn is_allocated(self) -> (r: bool)
        ensures
            r == (self is Eof || self is HasNext),
    {
        match self {
            FatEntry::Eof | FatEntry::HasNext(_) => true,
            _ => false,
        }
    }

    /// Whether the entry is that of a free cluster.
    pub fn is_free(self) -> (r: bool)
        ensures
            r == self is Free,
    {
        match self {
            FatEntry::Free => true,
            _ => false,
        }
    }

    /// The raw FAT-16 value of the entry.
    pub fn fat16_value(self) -> (r: u16)
        requires
            encodable(FatType::Fat16, self),
        ensures
            r == encode16(self),
    {
        match self {
            FatEntry::Free => 0,
            FatEntry::Eof => 0xffff,
            FatEntry::Defective => 0xfff7,
            FatEntry::HasNext(n) => n as u16,
        }
    }

    /// The raw FAT-32 value of the entry.
    pub fn fat32_value(self) -> (r: u32)
        requires
            encodable(FatType::Fat32, self),
        ensures
            r == encode32(self),
    {
        match self {
            FatEntry::Free => 0,
            FatEntry::Eof => 0x0fff_ffff,
            FatEntry::Defective => 0x0fff_fff7,
            FatEntry::HasNext(n) => n,
        }
    }
}

/// The entry a raw FAT-16 value stands for.
fn decode_fat16(raw: u16) -> (r: FatEntry)
    ensures
        r == decode16(raw),
{
    if raw == 0 {
        FatEntry::Free
    } else if raw == 0xFFF7 {
        FatEntry::Defective
    } else if raw >= 0xFFF8 {
        FatEntry::Eof
    } else {
        FatEntry::HasNext(raw as u32)
    }
}

/// The entry a raw FAT-32 value stands for.
fn decode_fat32(raw: u32) -> (r: FatEntry)
    ensures
        r == decode32(raw),
{
    if raw == 0 {
        FatEntry::Free
    } else if raw == 0x0FFF_FFF7 {
        FatEntry::Defective
    } else if raw >= 0x0FFF_FFF8 {
        // in theory only 0x0FFFFFFF marks the last cluster, but mkfs.vfat
        // sets FAT[2] to 0x0FFFFFF8
        FatEntry::Eof
    } else {
        FatEntry::HasNext(raw)
    }
}

/// The contents of `count` device sectors from `first` on, one after another.
pub open spec fn sectors_bytes<B: BlockOp>(dev: &B, first: BlockSector, count: int) -> Seq<u8>
    decreases count,
{
    if count <= 0 {
        Seq::empty()
    } else {
        sectors_bytes(dev, first, count - 1) + dev.sector_data((first + count - 1) as BlockSector)
    }
}

/// File Allocation Table: lists the clusters that are allocated or free, and
/// keeps the linked list of clusters of each file.
pub struct Fat {
    pub kind: FatType,
    /// The raw bytes of the table, as on disk
    pub data: Vec<u8>,
    pub free_clusters: FreeSet,
    /// Index of first disk sector in the first FAT
    pub first_fat_sector: u32,
    /// Number of disk sectors in each FAT
    pub sectors_per_fat: u32,
    /// Number of mirrors of this FAT on disk
    pub mirror_count: u32,
    /// Number of clusters of the file system
    pub cluster_count: u32,
}

impl Fat {
    /// Whether `other` has this table's kind, size and place on disk.
    pub open spec fn same_layout(&self, other: &Fat) -> bool {
        &&& self.kind == other.kind
        &&& self.data@.len() == other.data@.len()
        &&& self.first_fat_sector == other.first_fat_sector
        &&& self.sectors_per_fat == other.sectors_per_fat
        &&& self.mirror_count == other.mirror_count
        &&& self.cluster_count == other.cluster_count
    }

    /// The entry for cluster `i`.
    pub open spec fn spec_entry(&self, i: int) -> FatEntry {
        entry_in(self.kind, self.data@, i)
    }

    /// How many entries the table holds.
    pub open spec fn entry_count(&self) -> int {
        entries_in(self.kind, self.data@.len() as int)
    }

    /// The table covers every cluster, and the free set holds exactly the
    /// clusters (from 2 on: the first two entries are reserved) whose entry
    /// is `Free`.
    pub open spec fn wf(&self) -> bool {
        &&& self.free_clusters.wf()
        &&& self.cluster_count <= self.entry_count()
        &&& self.free_clusters.bitmap@.len() == (self.cluster_count as int + 63) / 64
        &&& self.data@.len() == self.sectors_per_fat as int * BLOCK_SECTOR_SIZE as int
        &&& forall|i: u32| #[trigger] self.free_clusters.is_free(i) <==> (2 <= i < self.cluster_count && self.spec_entry(i as int) is Free)
    }

    /// The entry for cluster `i`.
    pub fn entry(&self, i: u32) -> (r: FatEntry)
        requires
            i < self.entry_count(),
        ensures
            r == self.spec_entry(i as int),
    {
        let len = self.data.len();
        assert(4 * (i as int) + 4 <= len || self.kind == FatType::Fat16);
        match self.kind {
            FatType::Fat16 => decode_fat16(read_u16_le(self.data.as_slice(), 2 * (i as usize))),
            FatType::Fat32 => decode_fat32(read_u32_le(self.data.as_slice(), 4 * (i as usize)) & 0x0FFF_FFFF),
        }
    }

    /// Set the entry for cluster `i` to `entry`.
    fn set_entry(&mut self, i: u32, entry: FatEntry)
        requires
            i < old(self).entry_count(),
            encodable(old(self).kind, entry),
            entry matches FatEntry::HasNext(n) ==> n > 0,
        ensures
            final(self).kind == old(self).kind,
            final(self).data@.len() == old(self).data@.len(),
            final(self).free_clusters == old(self).free_clusters,
            final(self).first_fat_sector == old(self).first_fat_sector,
            final(self).sectors_per_fat == old(self).sectors_per_fat,
            final(self).mirror_count == old(self).mirror_count,
            final(self).cluster_count == old(self).cluster_count,
            final(self).spec_entry(i as int) == entry,
            forall|j: int| 0 <= j < old(self).entry_count() && j != i ==> #[trigger] final(self).spec_entry(j) == old(self).spec_entry(j),
            old(self).kind == FatType::Fat32 ==> final(self).data@[4 * i + 3] & 0xF0 == old(self).data@[4 * i + 3] & 0xF0,
    {
        proof { lemma_entry_roundtrip(self.kind, entry); }
        let ghost d0 = self.data@;
        let len = self.data.len();
        match self.kind {
            FatType::Fat16 => {
                let raw = entry.fat16_value();
                let off = 2 * (i as usize);
                self.data.set(off, (raw & 0xff) as u8);
                self.data.set(off + 1, (raw >> 8) as u8);
                proof {
                    lemma_u16_le_bytes_value(raw);
                    assert forall|j: int| 0 <= j < old(self).entry_count() && j != i implies #[trigger] self.spec_entry(j) == old(self).spec_entry(j) by {
                        assert(self.data@[2 * j] == d0[2 * j]);
                        assert(self.data@[2 * j + 1] == d0[2 * j + 1]);
                    }
                }
            },
            FatType::Fat32 => {
                let off = 4 * (i as usize);
                let old_raw = read_u32_le(self.data.as_slice(), off);
                // the top 4 bits of the entry are reserved and stay as they are
                let raw = (old_raw & 0xF000_0000) | entry.fat32_value();
                self.data.set(off, (raw & 0xff) as u8);
                self.data.set(off + 1, ((raw >> 8) & 0xff) as u8);
                self.data.set(off + 2, ((raw >> 16) & 0xff) as u8);
                self.data.set(off + 3, (raw >> 24) as u8);
                proof {
                    lemma_u32_le_bytes_value(raw);
                    let v = encode32(entry);
                    assert(v <= 0x0FFF_FFFFu32 ==> ((old_raw & 0xF000_0000u32) | v) & 0x0FFF_FFFFu32 == v) by (bit_vector);
                    let b0 = d0[4 * i];
                    let b1 = d0[4 * i + 1];
                    let b2 = d0[4 * i + 2];
                    let b3 = d0[4 * i + 3];
                    assert(old_raw == b0 + 256 * b1 + 65536 * b2 + 16777216 * b3);
                    assert(old_raw >> 24 == b3 as u32) by (bit_vector)
                        requires
                            old_raw == b0 + 256 * b1 + 65536 * b2 + 16777216 * b3,
                    ;
                    assert(v <= 0x0FFF_FFFFu32 ==> (((((old_raw & 0xF000_0000u32) | v) >> 24) as u8) & 0xF0u8 == b3 & 0xF0u8))
                        by (bit_vector)
                        requires
                            old_raw >> 24 == b3 as u32,
                    ;
                    assert forall|j: int| 0 <= j < old(self).entry_count() && j != i implies #[trigger] self.spec_entry(j) == old(self).spec_entry(j) by {
                        assert(self.data@[4 * j] == d0[4 * j]);
                        assert(self.data@[4 * j + 1] == d0[4 * j + 1]);
                        assert(self.data@[4 * j + 2] == d0[4 * j + 2]);
                        assert(self.data@[4 * j + 3] == d0[4 * j + 3]);
                    }
                }
            },
        }
    }

    /// Allocate the first cluster of a file or directory: a free cluster,
    /// marked as the last one of its file.
    pub fn allocate_cluster(&mut self) -> (r: Result<u32>)
        requires
            old(self).wf(),
        ensures
            final(self).wf(),
            final(self).same_layout(old(self)),
            final(self).entry_count() == old(self).entry_count(),
            final(self).cluster_count == old(self).cluster_count,
            final(self).kind == old(self).kind,
            match r {
                Ok(c) => {
                    &&& 2 <= c < old(self).cluster_count
                    &&& old(self).spec_entry(c as int) is Free
                    &&& final(self).spec_entry(c as int) is Eof
                    &&& forall|j: int| 0 <= j < old(self).entry_count() && j != c ==> #[trigger] final(self).spec_entry(j) == old(self).spec_entry(j)
                },
                Err(e) => {
                    &&& e is NoSpace
                    &&& forall|j: u32| 2 <= j < old(self).cluster_count ==> !(#[trigger] old(self).spec_entry(j as int) is Free)
                    &&& *final(self) == *old(self)
                },
            },
    {
        let cluster = match self.free_clusters.allocate() {
            Some(c) => c,
            None => {
                proof {
                    assert forall|j: u32| 2 <= j < self.cluster_count implies !(#[trigger] self.spec_entry(j as int) is Free) by {
                        assert(!self.free_clusters.is_free(j));
                    }
                }
                return Err(Error::NoSpace);
            },
        };
        let ghost f1 = self.free_clusters;
        self.set_entry(cluster, FatEntry::Eof);
        proof {
            assert forall|j: u32| #[trigger] self.free_clusters.is_free(j) <==> (2 <= j < self.cluster_count && self.spec_entry(j as int) is Free) by {
                if j != cluster {
                    assert(f1.is_free(j) == old(self).free_clusters.is_free(j));
                    if j < self.cluster_count {
                        assert(self.spec_entry(j as int) == old(self).spec_entry(j as int));
                    }
                }
            }
        }
        Ok(cluster)
    }

    /// Allocate a new cluster and make it the one after `cluster` in its file.
    pub fn link_new_cluster(&mut self, cluster: u32) -> (r: Result<u32>)
        requires
            old(self).wf(),
            2 <= cluster < old(self).cluster_count,
            !(old(self).spec_entry(cluster as int) is Free),
            encodable(old(self).kind, FatEntry::HasNext((old(self).cluster_count - 1) as u32)),
        ensures
            final(self).wf(),
            final(self).same_layout(old(self)),
            match r {
                Ok(c) => {
                    &&& 2 <= c < old(self).cluster_count
                    &&& c != cluster
                    &&& old(self).spec_entry(c as int) is Free
                    &&& final(self).spec_entry(c as int) is Eof
                    &&& final(self).spec_entry(cluster as int) == FatEntry::HasNext(c)
                    &&& forall|j: int| 0 <= j < old(self).entry_count() && j != c && j != cluster ==> #[trigger] final(self).spec_entry(j)
                        == old(self).spec_entry(j)
                },
                Err(e) => e is NoSpace && *final(self) == *old(self),
            },
    {
        let new_cluster = self.allocate_cluster()?;
        let ghost s1 = *self;
        assert(new_cluster <= old(self).cluster_count - 1);
        self.set_entry(cluster, FatEntry::HasNext(new_cluster));
        proof {
            assert forall|j: u32| #[trigger] self.free_clusters.is_free(j) <==> (2 <= j < self.cluster_count && self.spec_entry(j as int) is Free) by {
                assert(s1.free_clusters.is_free(j) <==> (2 <= j < s1.cluster_count && s1.spec_entry(j as int) is Free));
                if j != cluster && j < self.cluster_count {
                    assert(self.spec_entry(j as int) == s1.spec_entry(j as int));
                }
            }
        }
        Ok(new_cluster)
    }

    /// Free cluster `cluster`.
    pub fn free_cluster(&mut self, cluster: u32)
        requires
            old(self).wf(),
            2 <= cluster < old(self).cluster_count,
            !(old(self).spec_entry(cluster as int) is Free),
        ensures
            final(self).wf(),
            final(self).same_layout(old(self)),
            final(self).spec_entry(cluster as int) is Free,
            forall|j: int| 0 <= j < old(self).entry_count() && j != cluster ==> #[trigger] final(self).spec_entry(j) == old(self).spec_entry(j),
    {
        self.free_clusters.free(cluster);
        let ghost f1 = self.free_clusters;
        self.set_entry(cluster, FatEntry::Free);
        proof {
            assert forall|j: u32| #[trigger] self.free_clusters.is_free(j) <==> (2 <= j < self.cluster_count && self.spec_entry(j as int) is Free) by {
                if j != cluster {
                    assert(f1.is_free(j) == old(self).free_clusters.is_free(j));
                    if j < self.cluster_count {
                        assert(self.spec_entry(j as int) == old(self).spec_entry(j as int));
                    }
                }
            }
        }
    }

    /// Make `cluster` the last one of its file. The clusters after it must be
    /// freed with `free_cluster`, or they stay allocated.
    pub fn set_eof(&mut self, cluster: u32)
        requires
            old(self).wf(),
            2 <= cluster < old(self).cluster_count,
            !(old(self).spec_entry(cluster as int) is Free),
        ensures
            final(self).wf(),
            final(self).same_layout(old(self)),
            final(self).spec_entry(cluster as int) is Eof,
            forall|j: int| 0 <= j < old(self).entry_count() && j != cluster ==> #[trigger] final(self).spec_entry(j) == old(self).spec_entry(j),
    {
        self.set_entry(cluster, FatEntry::Eof);
        proof {
            assert forall|j: u32| #[trigger] self.free_clusters.is_free(j) <==> (2 <= j < self.cluster_count && self.spec_entry(j as int) is Free) by {
                if j != cluster && j < self.cluster_count {
                    assert(self.spec_entry(j as int) == old(self).spec_entry(j as int));
                }
            }
        }
    }

    /// The cluster after `cluster` in its file, or `None` if it is the last.
    pub fn next_cluster(&self, cluster: u32) -> (r: Result<Option<u32>>)
        requires
            cluster < self.entry_count(),
        ensures
            match self.spec_entry(cluster as int) {
                FatEntry::Eof => r == Ok::<Option<u32>, Error>(None),
                FatEntry::HasNext(n) => r == Ok::<Option<u32>, Error>(Some(n)),
                _ => r matches Err(Error::IO(_)),
            },
    {
        match self.entry(cluster) {
            FatEntry::Eof => Ok(None),
            FatEntry::HasNext(n) => Ok(Some(n)),
            FatEntry::Defective => Err(Error::io("defective cluster referenced in file")),
            FatEntry::Free => Err(Error::io("free cluster referenced in file")),
        }
    }

    /// Whether cluster `cluster` is in use by a file.
    pub fn is_cluster_allocated(&self, cluster: u32) -> (r: bool)
        requires
            cluster < self.entry_count(),
        ensures
            r == (self.spec_entry(cluster as int) is Eof || self.spec_entry(cluster as int) is HasNext),
    {
        self.entry(cluster).is_allocated()
    }
}

/// Whether every `HasNext` entry of the clusters of a FAT of type `kind` with
/// raw bytes `data` and `cluster_count` clusters names a cluster.
pub open spec fn valid_chains(kind: FatType, data: Seq<u8>, cluster_count: u32) -> bool {
    forall|i: int| 2 <= i < cluster_count ==> (#[trigger] entry_in(kind, data, i) matches FatEntry::HasNext(n) ==> 2 <= n < cluster_count)
}

impl Fat {
    /// The table of type `kind` with raw bytes `data`, for `cluster_count`
    /// clusters, kept in `mirror_count` copies of `sectors_per_fat` sectors
    /// from sector `first_fat_sector` on. Fails when the table is too small
    /// for the clusters or an entry names no cluster.
    pub fn from_bytes(
        data: Vec<u8>,
        cluster_count: u32,
        kind: FatType,
        first_fat_sector: u32,
        sectors_per_fat: u32,
        mirror_count: u32,
    ) -> (r: Result<Fat>)
        requires
            data@.len() == sectors_per_fat as int * BLOCK_SECTOR_SIZE as int,
        ensures
            r is Ok <==> (cluster_count <= entries_in(kind, data@.len() as int) && valid_chains(kind, data@, cluster_count)),
            match r {
                Ok(fat) => {
                    &&& fat.wf()
                    &&& fat.data@ == data@
                    &&& fat.kind == kind
                    &&& fat.cluster_count == cluster_count
                    &&& fat.first_fat_sector == first_fat_sector
                    &&& fat.sectors_per_fat == sectors_per_fat
                    &&& fat.mirror_count == mirror_count
                },
                Err(e) => e is IO,
            },
    {
        let entry_count: usize = match kind {
            FatType::Fat16 => data.len() / 2,
            FatType::Fat32 => data.len() / 4,
        };
        if entry_count < cluster_count as usize {
            return Err(Error::io("FAT size is too small"));
        }
        let free_clusters = FreeSet::new_all_allocated(cluster_count);
        let mut fat = Fat { kind, data, free_clusters, first_fat_sector, sectors_per_fat, mirror_count, cluster_count };
        // the first two entries are reserved
        let mut i: u32 = 2;
        while i < cluster_count
            invariant
                2 <= i,
                i <= cluster_count || i == 2,
                cluster_count <= fat.entry_count(),
                fat.kind == kind,
                fat.cluster_count == cluster_count,
                fat.first_fat_sector == first_fat_sector,
                fat.sectors_per_fat == sectors_per_fat,
                fat.mirror_count == mirror_count,
                fat.data@ == data@,
                fat.data@.len() == sectors_per_fat as int * BLOCK_SECTOR_SIZE as int,
                fat.free_clusters.wf(),
                fat.free_clusters.bitmap@.len() == (cluster_count as int + 63) / 64,
                forall|j: u32| #[trigger] fat.free_clusters.is_free(j) <==> (2 <= j < i && fat.spec_entry(j as int) is Free),
                forall|j: int| 2 <= j < i ==> (#[trigger] entry_in(kind, data@, j) matches FatEntry::HasNext(n) ==> 2 <= n < cluster_count),
            decreases cluster_count - i,
        {
            let entry = fat.entry(i);
            if entry.is_free() {
                let ghost f0 = fat.free_clusters;
                fat.free_clusters.free(i);
                proof {
                    assert forall|j: u32| #[trigger] fat.free_clusters.is_free(j) <==> (2 <= j < i + 1 && fat.spec_entry(j as int) is Free) by {
                        if j != i {
                            assert(f0.is_free(j) == fat.free_clusters.is_free(j));
                        }
                    }
                }
            }
            if let FatEntry::HasNext(n) = entry {
                if n < 2 || n >= cluster_count {
                    proof {
                        assert(!valid_chains(kind, data@, cluster_count)) by {
                            assert(entry_in(kind, data@, i as int) == entry);
                        }
                    }
                    return Err(Error::io("invalid entry in FAT"));
                }
            }
            i = i + 1;
        }
        proof {
            assert forall|j: u32| #[trigger] fat.free_clusters.is_free(j) <==> (2 <= j < fat.cluster_count && fat.spec_entry(j as int) is Free) by {
                assert(fat.free_clusters.is_free(j) <==> (2 <= j < i && fat.spec_entry(j as int) is Free));
                if cluster_count >= 2 {
                    assert(i == cluster_count);
                }
            }
        }
        Ok(fat)
    }

    /// Read the table of type `kind` from sectors `first` to `end` (excluded)
    /// of `device`, for `cluster_count` clusters, with `mirror_count` copies.
    pub fn new<B: BlockOp>(
        device: &mut B,
        cluster_count: u32,
        kind: FatType,
        first: u32,
        end: u32,
        mirror_count: u32,
    ) -> (r: Result<Fat>)
        requires
            first <= end,
        ensures
            forall|s: BlockSector| #[trigger] final(device).sector_data(s) == old(device).sector_data(s),
            match r {
                Ok(fat) => {
                    &&& fat.wf()
                    &&& fat.data@ == sectors_bytes(old(device), first, end - first)
                    &&& fat.kind == kind
                    &&& fat.cluster_count == cluster_count
                    &&& fat.first_fat_sector == first
                    &&& fat.sectors_per_fat == end - first
                    &&& fat.mirror_count == mirror_count
                    &&& valid_chains(kind, fat.data@, cluster_count)
                },
                Err(e) => e is IO,
            },
    {
        let mut data: Vec<u8> = Vec::new();
        let mut buf: Vec<u8> = Vec::new();
        while buf.len() < BLOCK_SECTOR_SIZE
            invariant
                buf@.len() <= BLOCK_SECTOR_SIZE,
            decreases BLOCK_SECTOR_SIZE - buf@.len(),
        {
            buf.push(0);
        }
        let mut sector = first;
        while sector < end
            invariant
                first <= sector <= end,
                buf@.len() == BLOCK_SECTOR_SIZE,
                data@ == sectors_bytes(old(device), first, sector - first),
                data@.len() == (sector - first) as int * BLOCK_SECTOR_SIZE as int,
                forall|s: BlockSector| #[trigger] device.sector_data(s) == old(device).sector_data(s),
            decreases end - sector,
        {
            match device.read(sector, buf.as_mut_slice()) {
                Ok(()) => {},
                Err(e) => return Err(Error::from_block_error(e)),
            }
            let ghost before = data@;
            let mut k: usize = 0;
            while k < BLOCK_SECTOR_SIZE
                invariant
                    k <= BLOCK_SECTOR_SIZE,
                    buf@.len() == BLOCK_SECTOR_SIZE,
                    data@ == before + buf@.take(k as int),
                decreases BLOCK_SECTOR_SIZE - k,
            {
                data.push(buf[k]);
                k = k + 1;
                assert(data@ =~= before + buf@.take(k as int));
            }
            proof {
                assert(buf@.take(BLOCK_SECTOR_SIZE as int) =~= buf@);
                assert(first + (sector + 1 - first) - 1 == sector);
            }
            sector = sector + 1;
        }
        Fat::from_bytes(data, cluster_count, kind, first, end - first, mirror_count)
    }

    /// Write the table to each of its copies on `device`.
    pub fn sync<B: BlockOp>(&self, device: &mut B) -> (r: Result<()>)
        requires
            self.wf(),
            self.first_fat_sector as int + self.mirror_count as int * self.sectors_per_fat as int <= u32::MAX,
        ensures
            forall|t: BlockSector|
                !(self.first_fat_sector <= t < self.first_fat_sector + self.mirror_count * self.sectors_per_fat) ==> #[trigger] final(device).sector_data(t)
                    == old(device).sector_data(t),
            r is Ok ==> forall|m: int, s: int|
                0 <= m < self.mirror_count && 0 <= s < self.sectors_per_fat ==> #[trigger] final(device).sector_data(
                    (self.first_fat_sector + m * self.sectors_per_fat + s) as BlockSector,
                ) == self.data@.subrange(s * BLOCK_SECTOR_SIZE, (s + 1) * BLOCK_SECTOR_SIZE),
    {
        let spf = self.sectors_per_fat;
        let mut m: u32 = 0;
        while m < self.mirror_count
            invariant
                self.wf(),
                spf == self.sectors_per_fat,
                m <= self.mirror_count,
                self.first_fat_sector as int + self.mirror_count as int * spf as int <= u32::MAX,
                forall|t: BlockSector|
                    !(self.first_fat_sector <= t < self.first_fat_sector + self.mirror_count * self.sectors_per_fat) ==> #[trigger] device.sector_data(t) == old(device).sector_data(t),
                forall|m2: int, s: int|
                    0 <= m2 < m && 0 <= s < spf ==> #[trigger] device.sector_data((self.first_fat_sector + m2 * spf + s) as BlockSector)
                        == self.data@.subrange(s * BLOCK_SECTOR_SIZE, (s + 1) * BLOCK_SECTOR_SIZE),
            decreases self.mirror_count - m,
        {
            proof {
                assert(m as int * spf as int <= (m as int + 1) * spf as int <= self.mirror_count as int * spf as int
                    && (m as int + 1) * spf as int == m as int * spf as int + spf as int) by (nonlinear_arith)
                    requires m < self.mirror_count;
            }
            let base = self.first_fat_sector + m * spf;
            let mut s: u32 = 0;
            while s < spf
                invariant
                    self.wf(),
                    spf == self.sectors_per_fat,
                    m < self.mirror_count,
                    s <= spf,
                    base == self.first_fat_sector + m * spf,
                    base as int + spf as int <= u32::MAX,
                    self.first_fat_sector as int + self.mirror_count as int * spf as int <= u32::MAX,
                    self.first_fat_sector <= base,
                    base + spf <= self.first_fat_sector + self.mirror_count * self.sectors_per_fat,
                    forall|t: BlockSector|
                        !(self.first_fat_sector <= t < self.first_fat_sector + self.mirror_count * self.sectors_per_fat) ==> #[trigger] device.sector_data(t) == old(device).sector_data(t),
                    forall|m2: int, s2: int|
                        0 <= m2 < m && 0 <= s2 < spf ==> #[trigger] device.sector_data((self.first_fat_sector + m2 * spf + s2) as BlockSector)
                            == self.data@.subrange(s2 * BLOCK_SECTOR_SIZE, (s2 + 1) * BLOCK_SECTOR_SIZE),
                    forall|s2: int|
                        0 <= s2 < s ==> #[trigger] device.sector_data((base + s2) as BlockSector) == self.data@.subrange(
                            s2 * BLOCK_SECTOR_SIZE,
                            (s2 + 1) * BLOCK_SECTOR_SIZE,
                        ),
                decreases spf - s,
            {
                let dlen = self.data.len();
                assert((s as int + 1) * BLOCK_SECTOR_SIZE as int <= spf as int * BLOCK_SECTOR_SIZE as int) by (nonlinear_arith)
                    requires s < spf;
                let from = (s as usize) * BLOCK_SECTOR_SIZE;
                let chunk = vstd::slice::slice_subrange(self.data.as_slice(), from, from + BLOCK_SECTOR_SIZE);
                let ghost d0 = *device;
                match device.write(base + s, chunk) {
                    Ok(()) => {},
                    Err(e) => return Err(Error::from_block_error(e)),
                }
                proof {
                    assert forall|m2: int, s2: int|
                        0 <= m2 < m && 0 <= s2 < spf implies #[trigger] device.sector_data((self.first_fat_sector + m2 * spf + s2) as BlockSector)
                            == self.data@.subrange(s2 * BLOCK_SECTOR_SIZE, (s2 + 1) * BLOCK_SECTOR_SIZE) by {
                        assert(m2 * spf + s2 < m * spf) by (nonlinear_arith)
                            requires 0 <= m2 < m, 0 <= s2 < spf;
                        assert(d0.sector_data((self.first_fat_sector + m2 * spf + s2) as BlockSector) == self.data@.subrange(
                            s2 * BLOCK_SECTOR_SIZE,
                            (s2 + 1) * BLOCK_SECTOR_SIZE,
                        ));
                    }
                    assert forall|s2: int| 0 <= s2 < s + 1 implies #[trigger] device.sector_data((base + s2) as BlockSector)
                        == self.data@.subrange(s2 * BLOCK_SECTOR_SIZE, (s2 + 1) * BLOCK_SECTOR_SIZE) by {
                        if s2 < s {
                            assert(d0.sector_data((base + s2) as BlockSector) == self.data@.subrange(
                                s2 * BLOCK_SECTOR_SIZE,
                                (s2 + 1) * BLOCK_SECTOR_SIZE,
                            ));
                        }
                    }
                }
                s = s + 1;
            }
            proof {
                assert forall|m2: int, s2: int|
                    0 <= m2 < m + 1 && 0 <= s2 < spf implies #[trigger] device.sector_data((self.first_fat_sector + m2 * spf + s2) as BlockSector)
                        == self.data@.subrange(s2 * BLOCK_SECTOR_SIZE, (s2 + 1) * BLOCK_SECTOR_SIZE) by {
                    if m2 == m {
                        assert(device.sector_data((base + s2) as BlockSector) == self.data@.subrange(
                            s2 * BLOCK_SECTOR_SIZE,
                            (s2 + 1) * BLOCK_SECTOR_SIZE,
                        ));
                    }
                }
            }
            m = m + 1;
        }
        Ok(())
    }
}

} // verus!
