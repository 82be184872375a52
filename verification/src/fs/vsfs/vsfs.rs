//! The superblock and the allocation bitmaps of a VSFS file system.
use vstd::prelude::*;

verus! {

/// The superblock of a VSFS file system.
#[derive(Clone, Copy, Debug, PartialEq, Eq, Structural)]
pub struct SuperBlock {
    /// Must match `VSFS_MAGIC`
    pub magic_number: u64,
    /// File system size in bytes
    pub fs_size: u64,
    /// Total number of inodes (set by mkfs)
    pub num_inodes: u32,
    /// Number of available inodes
    pub free_inodes: u32,
    /// File system size in blocks
    pub num_blocks: u32,
    /// Number of available blocks
    pub free_blocks: u32,
    /// First block after the inode table
    pub data_start: u32,
}

/// Whether bit `i` of the bitmap `bits` is set: bit `i % 8` of byte `i / 8`.
pub open spec fn bitmap_bit(bits: Seq<u8>, i: int) -> bool {
    bits[i / 8] & (1u8 << ((i % 8) as u8)) != 0
}

proof fn lemma_set_bit_u8(a: u8, k: u8, j: u8)
    by (bit_vector)
    requires
        k < 8,
        j < 8,
    ensures
        ((a | (1u8 << k)) & (1u8 << j) != 0) <==> (a & (1u8 << j) != 0 || j == k),
{
}

proof fn lemma_clear_bit_u8(a: u8, k: u8, j: u8)
    by (bit_vector)
    requires
        k < 8,
        j < 8,
    ensures
        ((a & !(1u8 << k)) & (1u8 << j) != 0) <==> (a & (1u8 << j) != 0 && j != k),
{
}

proof fn lemma_zero_bit_u8(a: u8, j: u8)
    by (bit_vector)
    requires
        a == 0,
    ensures
        a & (1u8 << j) == 0,
{
}

/// One bit per block or inode, set when it is allocated.
pub struct Bitmap {
    /// Each byte holds the bits of 8 consecutive blocks or inodes
    pub bits: Vec<u8>,
}

impl Bitmap {
    /// Whether block or inode `i` is allocated.
    pub open spec fn allocated(&self, i: int) -> bool {
        bitmap_bit(self.bits@, i)
    }

    /// A bitmap of `num_bits` bits (rounded up to whole bytes), none set.
    pub fn new(num_bits: u32) -> (r: Self)
        ensures
            r.bits@.len() == (num_bits as int + 7) / 8,
            forall|i: int| 0 <= i < r.bits@.len() * 8 ==> !#[trigger] r.allocated(i),
    {
        let num_bytes: u32 = num_bits / 8 + if num_bits % 8 == 0 { 0 } else { 1 };
        let mut bits: Vec<u8> = Vec::new();
        let mut k: u32 = 0;
        while k < num_bytes
            invariant
                k <= num_bytes,
                bits@.len() == k,
                forall|j: int| 0 <= j < k ==> bits@[j] == 0,
            decreases num_bytes - k,
        {
            bits.push(0);
            k = k + 1;
        }
        let r = Bitmap { bits };
        assert forall|i: int| 0 <= i < r.bits@.len() * 8 implies !#[trigger] r.allocated(i) by {
            lemma_zero_bit_u8(r.bits@[i / 8], (i % 8) as u8);
        }
        r
    }

    /// Whether block or inode `index` is allocated.
    pub fn is_allocated(&self, index: u32) -> (r: bool)
        requires
            (index / 8) < self.bits@.len(),
        ensures
            r == self.allocated(index as int),
    {
        let byte_index = (index / 8) as usize;
        let bit_offset = (index % 8) as u8;
        self.bits[byte_index] & (1u8 << bit_offset) != 0
    }

    /// Mark block or inode `index` allocated.
    pub fn allocate(&mut self, index: u32)
        requires
            (index / 8) < old(self).bits@.len(),
        ensures
            final(self).bits@.len() == old(self).bits@.len(),
            forall|i: int| 0 <= i < final(self).bits@.len() * 8 ==> #[trigger] final(self).allocated(i) == (i == index
                || old(self).allocated(i)),
    {
        let byte_index = (index / 8) as usize;
        let bit_offset = (index % 8) as u8;
        let ghost before = self.bits@;
        let b = self.bits[byte_index] | (1u8 << bit_offset);
        self.bits.set(byte_index, b);
        proof {
            assert forall|i: int| 0 <= i < self.bits@.len() * 8 implies #[trigger] self.allocated(i) == (i == index
                || bitmap_bit(before, i)) by {
                if i / 8 == byte_index as int {
                    lemma_set_bit_u8(before[i / 8], bit_offset, (i % 8) as u8);
                }
            }
        }
    }

    /// Mark block or inode `index` free.
    pub fn deallocate(&mut self, index: u32)
        requires
            (index / 8) < old(self).bits@.len(),
        ensures
            final(self).bits@.len() == old(self).bits@.len(),
            forall|i: int| 0 <= i < final(self).bits@.len() * 8 ==> #[trigger] final(self).allocated(i) == (i != index
                && old(self).allocated(i)),
    {
        let byte_index = (index / 8) as usize;
        let bit_offset = (index % 8) as u8;
        let ghost before = self.bits@;
        let b = self.bits[byte_index] & !(1u8 << bit_offset);
        self.bits.set(byte_index, b);
        proof {
            assert forall|i: int| 0 <= i < self.bits@.len() * 8 implies #[trigger] self.allocated(i) == (i != index
                && bitmap_bit(before, i)) by {
                if i / 8 == byte_index as int {
                    lemma_clear_bit_u8(before[i / 8], bit_offset, (i % 8) as u8);
                }
            }
        }
    }
}

/// Freeing what was just allocated undoes the allocation: if `mid` is `before`
/// with the free slot `index` allocated, and `after` is `mid` with `index`
/// freed, then `after` and `before` hold the same allocated slots.
pub proof fn lemma_allocate_then_deallocate(before: Bitmap, mid: Bitmap, after: Bitmap, index: u32)
    requires
        before.bits@.len() == mid.bits@.len() == after.bits@.len(),
        (index / 8) < before.bits@.len(),
        !before.allocated(index as int),
        forall|i: int| 0 <= i < mid.bits@.len() * 8 ==> #[trigger] mid.allocated(i) == (i == index || before.allocated(i)),
        forall|i: int| 0 <= i < after.bits@.len() * 8 ==> #[trigger] after.allocated(i) == (i != index && mid.allocated(i)),
    ensures
        forall|i: int| 0 <= i < after.bits@.len() * 8 ==> #[trigger] after.allocated(i) == before.allocated(i),
{
    assert forall|i: int| 0 <= i < after.bits@.len() * 8 implies #[trigger] after.allocated(i) == before.allocated(i) by {
        assert(mid.allocated(i) == (i == index || before.allocated(i)));
    }
}

} // verus!
